//! Stable 128-bit identities.
//!
//! An identity is an opaque sixteen-byte value. It is held as the unsigned
//! integer that its bytes spell in big-endian order, so that comparing two
//! identities as integers compares their bytes lexicographically.

use vstd::prelude::*;

use crate::big_endian::{be_bytes, be_value, get_be};
use crate::big_endian::{lemma_be_bytes_len, lemma_be_bytes_of_value, lemma_be_value_of_bytes, lemma_radix_powers};

verus! {

/// The sixteen bytes of an identity.
pub open spec fn identity_bytes(value: u128) -> Seq<u8> {
    be_bytes(value as nat, 16)
}

/// Reading the bytes of an identity gives back that identity, and every
/// sixteen-byte string is the bytes of the identity that it spells.
pub proof fn law_identity_bytes_round_trip(value: u128, bytes: Seq<u8>)
    requires
        bytes.len() == 16,
    ensures
        identity_bytes(value).len() == 16,
        be_value(identity_bytes(value)) == value as nat,
        be_value(bytes) <= u128::MAX,
        identity_bytes(be_value(bytes) as u128) == bytes,
{
    lemma_radix_powers();
    lemma_be_bytes_len(value as nat, 16);
    lemma_be_value_of_bytes(value as nat, 16);
    lemma_be_bytes_of_value(bytes);
}

/// Spells an identity as its sixteen bytes.
pub fn identity_to_bytes(value: u128) -> (bytes: [u8; 16])
    ensures
        bytes@ == identity_bytes(value),
{
    let mut bytes: [u8; 16] = [0u8; 16];
    let mut rest: u128 = value;
    let mut index: usize = 16;
    proof {
        lemma_be_bytes_len(value as nat, 16);
    }
    while index > 0
        invariant
            index <= 16,
            be_bytes(value as nat, 16) == be_bytes(rest as nat, index as nat) + bytes@.skip(index as int),
        decreases index,
    {
        let ghost before = bytes@;
        let ghost held = rest;
        index = index - 1;
        bytes[index] = (rest % 256) as u8;
        rest = rest / 256;
        proof {
            lemma_be_bytes_len(rest as nat, index as nat);
            assert(be_bytes(held as nat, (index + 1) as nat) == be_bytes(rest as nat, index as nat).push((held % 256) as u8));
            assert(bytes@.skip(index as int) =~= seq![(held % 256) as u8] + before.skip(index + 1));
            assert(be_bytes(rest as nat, index as nat) + bytes@.skip(index as int) =~= be_bytes(
                held as nat,
                (index + 1) as nat,
            ) + before.skip(index + 1));
        }
    }
    proof {
        assert(bytes@.skip(0) =~= bytes@);
        assert(be_bytes(rest as nat, 0) + bytes@ =~= bytes@);
    }
    bytes
}

/// The identity of a nominal value type.
#[derive(Clone, Copy, Debug, PartialEq, Eq, PartialOrd, Ord, Hash, Structural)]
pub struct TypeId(pub u128);

impl TypeId {
    /// Creates the identity that sixteen bytes spell.
    pub fn from_bytes(bytes: [u8; 16]) -> (identity: TypeId)
        ensures
            identity_bytes(identity.0) == bytes@,
            identity.0 as nat == be_value(bytes@),
    {
        proof {
            lemma_radix_powers();
            lemma_be_bytes_of_value(bytes@);
        }
        TypeId(get_be(bytes.as_slice()))
    }

    /// Returns the sixteen bytes of this identity.
    pub fn to_bytes(self) -> (bytes: [u8; 16])
        ensures
            bytes@ == identity_bytes(self.0),
    {
        identity_to_bytes(self.0)
    }
}

/// The identity of an object field.
#[derive(Clone, Copy, Debug, PartialEq, Eq, PartialOrd, Ord, Hash, Structural)]
pub struct FieldId(pub u128);

impl FieldId {
    /// Creates the identity that sixteen bytes spell.
    pub fn from_bytes(bytes: [u8; 16]) -> (identity: FieldId)
        ensures
            identity_bytes(identity.0) == bytes@,
            identity.0 as nat == be_value(bytes@),
    {
        proof {
            lemma_radix_powers();
            lemma_be_bytes_of_value(bytes@);
        }
        FieldId(get_be(bytes.as_slice()))
    }

    /// Returns the sixteen bytes of this identity.
    pub fn to_bytes(self) -> (bytes: [u8; 16])
        ensures
            bytes@ == identity_bytes(self.0),
    {
        identity_to_bytes(self.0)
    }
}

/// The identity of a function.
#[derive(Clone, Copy, Debug, PartialEq, Eq, PartialOrd, Ord, Hash, Structural)]
pub struct FunctionId(pub u128);

impl FunctionId {
    /// Creates the identity that sixteen bytes spell.
    pub fn from_bytes(bytes: [u8; 16]) -> (identity: FunctionId)
        ensures
            identity_bytes(identity.0) == bytes@,
            identity.0 as nat == be_value(bytes@),
    {
        proof {
            lemma_radix_powers();
            lemma_be_bytes_of_value(bytes@);
        }
        FunctionId(get_be(bytes.as_slice()))
    }

    /// Returns the sixteen bytes of this identity.
    pub fn to_bytes(self) -> (bytes: [u8; 16])
        ensures
            bytes@ == identity_bytes(self.0),
    {
        identity_to_bytes(self.0)
    }
}

/// The identity of a function parameter.
#[derive(Clone, Copy, Debug, PartialEq, Eq, PartialOrd, Ord, Hash, Structural)]
pub struct ParameterId(pub u128);

impl ParameterId {
    /// Creates the identity that sixteen bytes spell.
    pub fn from_bytes(bytes: [u8; 16]) -> (identity: ParameterId)
        ensures
            identity_bytes(identity.0) == bytes@,
            identity.0 as nat == be_value(bytes@),
    {
        proof {
            lemma_radix_powers();
            lemma_be_bytes_of_value(bytes@);
        }
        ParameterId(get_be(bytes.as_slice()))
    }

    /// Returns the sixteen bytes of this identity.
    pub fn to_bytes(self) -> (bytes: [u8; 16])
        ensures
            bytes@ == identity_bytes(self.0),
    {
        identity_to_bytes(self.0)
    }
}

/// The identity of a procedural local binding.
#[derive(Clone, Copy, Debug, PartialEq, Eq, PartialOrd, Ord, Hash, Structural)]
pub struct LocalId(pub u128);

impl LocalId {
    /// Creates the identity that sixteen bytes spell.
    pub fn from_bytes(bytes: [u8; 16]) -> (identity: LocalId)
        ensures
            identity_bytes(identity.0) == bytes@,
            identity.0 as nat == be_value(bytes@),
    {
        proof {
            lemma_radix_powers();
            lemma_be_bytes_of_value(bytes@);
        }
        LocalId(get_be(bytes.as_slice()))
    }

    /// Returns the sixteen bytes of this identity.
    pub fn to_bytes(self) -> (bytes: [u8; 16])
        ensures
            bytes@ == identity_bytes(self.0),
    {
        identity_to_bytes(self.0)
    }
}

/// The identity of a client state slot.
#[derive(Clone, Copy, Debug, PartialEq, Eq, PartialOrd, Ord, Hash, Structural)]
pub struct StateSlotId(pub u128);

impl StateSlotId {
    /// Creates the identity that sixteen bytes spell.
    pub fn from_bytes(bytes: [u8; 16]) -> (identity: StateSlotId)
        ensures
            identity_bytes(identity.0) == bytes@,
            identity.0 as nat == be_value(bytes@),
    {
        proof {
            lemma_radix_powers();
            lemma_be_bytes_of_value(bytes@);
        }
        StateSlotId(get_be(bytes.as_slice()))
    }

    /// Returns the sixteen bytes of this identity.
    pub fn to_bytes(self) -> (bytes: [u8; 16])
        ensures
            bytes@ == identity_bytes(self.0),
    {
        identity_to_bytes(self.0)
    }
}

/// The identity of a compiled call site.
#[derive(Clone, Copy, Debug, PartialEq, Eq, PartialOrd, Ord, Hash, Structural)]
pub struct CallSiteId(pub u128);

impl CallSiteId {
    /// Creates the identity that sixteen bytes spell.
    pub fn from_bytes(bytes: [u8; 16]) -> (identity: CallSiteId)
        ensures
            identity_bytes(identity.0) == bytes@,
            identity.0 as nat == be_value(bytes@),
    {
        proof {
            lemma_radix_powers();
            lemma_be_bytes_of_value(bytes@);
        }
        CallSiteId(get_be(bytes.as_slice()))
    }

    /// Returns the sixteen bytes of this identity.
    pub fn to_bytes(self) -> (bytes: [u8; 16])
        ensures
            bytes@ == identity_bytes(self.0),
    {
        identity_to_bytes(self.0)
    }
}

/// The identity of a source revision.
#[derive(Clone, Copy, Debug, PartialEq, Eq, PartialOrd, Ord, Hash, Structural)]
pub struct SourceRevisionId(pub u128);

impl SourceRevisionId {
    /// Creates the identity that sixteen bytes spell.
    pub fn from_bytes(bytes: [u8; 16]) -> (identity: SourceRevisionId)
        ensures
            identity_bytes(identity.0) == bytes@,
            identity.0 as nat == be_value(bytes@),
    {
        proof {
            lemma_radix_powers();
            lemma_be_bytes_of_value(bytes@);
        }
        SourceRevisionId(get_be(bytes.as_slice()))
    }

    /// Returns the sixteen bytes of this identity.
    pub fn to_bytes(self) -> (bytes: [u8; 16])
        ensures
            bytes@ == identity_bytes(self.0),
    {
        identity_to_bytes(self.0)
    }
}

/// The identity of a catalogue revision.
#[derive(Clone, Copy, Debug, PartialEq, Eq, PartialOrd, Ord, Hash, Structural)]
pub struct CatalogueRevisionId(pub u128);

impl CatalogueRevisionId {
    /// Creates the identity that sixteen bytes spell.
    pub fn from_bytes(bytes: [u8; 16]) -> (identity: CatalogueRevisionId)
        ensures
            identity_bytes(identity.0) == bytes@,
            identity.0 as nat == be_value(bytes@),
    {
        proof {
            lemma_radix_powers();
            lemma_be_bytes_of_value(bytes@);
        }
        CatalogueRevisionId(get_be(bytes.as_slice()))
    }

    /// Returns the sixteen bytes of this identity.
    pub fn to_bytes(self) -> (bytes: [u8; 16])
        ensures
            bytes@ == identity_bytes(self.0),
    {
        identity_to_bytes(self.0)
    }
}

/// The source revision and the catalogue revision that one compilation pins.
#[derive(Clone, Copy, Debug, PartialEq, Eq, Structural)]
pub struct RevisionPair {
    pub source: SourceRevisionId,
    pub catalogue: CatalogueRevisionId,
}

impl RevisionPair {
    /// Creates a revision pair.
    pub fn new(source: SourceRevisionId, catalogue: CatalogueRevisionId) -> (pair: RevisionPair)
        ensures
            pair == (RevisionPair { source, catalogue }),
    {
        RevisionPair { source, catalogue }
    }

    /// Returns the pinned source revision.
    pub fn source(self) -> (source: SourceRevisionId)
        ensures
            source == self.source,
    {
        self.source
    }

    /// Returns the pinned catalogue revision.
    pub fn catalogue(self) -> (catalogue: CatalogueRevisionId)
        ensures
            catalogue == self.catalogue,
    {
        self.catalogue
    }
}

} // verus!
