//! Grammar attributes: the closed set of boolean switches that shape how a
//! style group decomposes a token, and the set-of-attributes value stored in
//! each group.

use vstd::prelude::*;

verus! {

/// One grammar switch of a style group.
#[derive(Copy, Clone, PartialEq, Eq, Structural, Debug, Hash)]
pub enum Attribute {
    /// Multiple single-character boolean flags may be concatenated after one
    /// prefix: `-abc` is `-a -b -c`, each independently resolved and set true.
    Composable,
    /// A flag's value may be appended directly after the flag name with no
    /// assigner: `-a8080` for flag `a` yields value `"8080"`.
    CompactValue,
    /// A value may be attached via the group's assigner with no intervening
    /// space: `/a=127.0.0.1`.
    CompactArg,
    /// The group's assigner string is rejected: its presence in a token
    /// triggers an error.
    NoAssigner,
    /// A flag's value may not be supplied as a following, separate token;
    /// only attached forms are accepted.
    NoSparseAssign,
}

/// A set of [`Attribute`] values, one membership bit per attribute.
#[derive(Copy, Clone, PartialEq, Eq, Structural, Debug)]
pub struct AttributeSet {
    pub composable: bool,
    pub compact_value: bool,
    pub compact_arg: bool,
    pub no_assigner: bool,
    pub no_sparse_assign: bool,
}

impl AttributeSet {
    /// Membership, as a spec-level predicate.
    pub open spec fn spec_contains(self, a: Attribute) -> bool {
        match a {
            Attribute::Composable => self.composable,
            Attribute::CompactValue => self.compact_value,
            Attribute::CompactArg => self.compact_arg,
            Attribute::NoAssigner => self.no_assigner,
            Attribute::NoSparseAssign => self.no_sparse_assign,
        }
    }

    /// The set with no attribute active.
    pub fn empty() -> (r: AttributeSet)
        ensures
            forall|a: Attribute| !r.spec_contains(a),
    {
        AttributeSet {
            composable: false,
            compact_value: false,
            compact_arg: false,
            no_assigner: false,
            no_sparse_assign: false,
        }
    }

    /// Does the set contain `a`?
    pub fn contains(&self, a: Attribute) -> (r: bool)
        ensures
            r == self.spec_contains(a),
    {
        match a {
            Attribute::Composable => self.composable,
            Attribute::CompactValue => self.compact_value,
            Attribute::CompactArg => self.compact_arg,
            Attribute::NoAssigner => self.no_assigner,
            Attribute::NoSparseAssign => self.no_sparse_assign,
        }
    }

    /// The set extended with `a`.
    pub fn with(self, a: Attribute) -> (r: AttributeSet)
        ensures
            r.spec_contains(a),
            forall|b: Attribute| b != a ==> r.spec_contains(b) == self.spec_contains(b),
    {
        match a {
            Attribute::Composable => AttributeSet { composable: true, ..self },
            Attribute::CompactValue => AttributeSet { compact_value: true, ..self },
            Attribute::CompactArg => AttributeSet { compact_arg: true, ..self },
            Attribute::NoAssigner => AttributeSet { no_assigner: true, ..self },
            Attribute::NoSparseAssign => AttributeSet { no_sparse_assign: true, ..self },
        }
    }

    /// Decodes a set from its external bit representation: bit 0 is
    /// `Composable`, bit 1 `CompactValue`, bit 2 `CompactArg`, bit 3
    /// `NoAssigner`, bit 4 `NoSparseAssign`. Any higher bit set means the
    /// encoding is not a valid attribute set.
    pub fn from_bits(bits: u8) -> (r: Option<AttributeSet>)
        ensures
            r is Some <==> bits < 32,
            r is Some ==> r->0 == (AttributeSet {
                composable: bits & 1 != 0,
                compact_value: bits & 2 != 0,
                compact_arg: bits & 4 != 0,
                no_assigner: bits & 8 != 0,
                no_sparse_assign: bits & 16 != 0,
            }),
    {
        if bits >= 32 {
            None
        } else {
            Some(AttributeSet {
                composable: bits & 1 != 0,
                compact_value: bits & 2 != 0,
                compact_arg: bits & 4 != 0,
                no_assigner: bits & 8 != 0,
                no_sparse_assign: bits & 16 != 0,
            })
        }
    }
}

impl Attribute {
    /// The attribute combination of the GNU dialect: composable boolean
    /// flags and compact values (`-abc`, `-a8080`).
    pub fn gnu_style() -> (r: AttributeSet)
        ensures
            r == (AttributeSet {
                composable: true,
                compact_value: true,
                compact_arg: false,
                no_assigner: false,
                no_sparse_assign: false,
            }),
    {
        AttributeSet {
            composable: true,
            compact_value: true,
            compact_arg: false,
            no_assigner: false,
            no_sparse_assign: false,
        }
    }

    /// The attribute combination of the DOS dialect: composable boolean
    /// flags and assigner-attached values (`/a=127.0.0.1`).
    pub fn dos_style() -> (r: AttributeSet)
        ensures
            r == (AttributeSet {
                composable: true,
                compact_value: false,
                compact_arg: true,
                no_assigner: false,
                no_sparse_assign: false,
            }),
    {
        AttributeSet {
            composable: true,
            compact_value: false,
            compact_arg: true,
            no_assigner: false,
            no_sparse_assign: false,
        }
    }

    /// The default attribute combination, the GNU dialect.
    pub fn default() -> (r: AttributeSet)
        ensures
            r == (AttributeSet {
                composable: true,
                compact_value: true,
                compact_arg: false,
                no_assigner: false,
                no_sparse_assign: false,
            }),
    {
        Attribute::gnu_style()
    }
}

} // verus!
