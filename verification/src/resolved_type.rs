//! Resolved semantic types.

use vstd::prelude::*;

use crate::identity::TypeId;
use crate::text::{identity_text, with_identity_then, with_text_then};

verus! {

/// A standard scalar type.
#[derive(Clone, Copy, Debug, PartialEq, Eq, Structural)]
pub enum StandardScalar {
    /// BOOLEAN.
    Boolean,
    /// INTEGER.
    Integer,
    /// BIGINT.
    BigInt,
    /// FLOAT.
    Float,
    /// DECIMAL.
    Decimal,
    /// CHARACTER LARGE OBJECT.
    CharacterLargeObject,
    /// BINARY LARGE OBJECT.
    BinaryLargeObject,
    /// UUID.
    Uuid,
    /// DATE.
    Date,
    /// TIME.
    Time,
    /// TIMESTAMP.
    Timestamp,
    /// DURATION.
    Duration,
    /// The absence of a value.
    Void,
}

impl StandardScalar {
    /// The name of this scalar type.
    pub open spec fn text(self) -> Seq<char> {
        match self {
            StandardScalar::Boolean => "Boolean"@,
            StandardScalar::Integer => "Integer"@,
            StandardScalar::BigInt => "BigInt"@,
            StandardScalar::Float => "Float"@,
            StandardScalar::Decimal => "Decimal"@,
            StandardScalar::CharacterLargeObject => "CharacterLargeObject"@,
            StandardScalar::BinaryLargeObject => "BinaryLargeObject"@,
            StandardScalar::Uuid => "Uuid"@,
            StandardScalar::Date => "Date"@,
            StandardScalar::Time => "Time"@,
            StandardScalar::Timestamp => "Timestamp"@,
            StandardScalar::Duration => "Duration"@,
            StandardScalar::Void => "Void"@,
        }
    }

    /// Returns the name of this scalar type.
    pub fn name(self) -> (name: &'static str)
        ensures
            name@ == self.text(),
    {
        match self {
            StandardScalar::Boolean => "Boolean",
            StandardScalar::Integer => "Integer",
            StandardScalar::BigInt => "BigInt",
            StandardScalar::Float => "Float",
            StandardScalar::Decimal => "Decimal",
            StandardScalar::CharacterLargeObject => "CharacterLargeObject",
            StandardScalar::BinaryLargeObject => "BinaryLargeObject",
            StandardScalar::Uuid => "Uuid",
            StandardScalar::Date => "Date",
            StandardScalar::Time => "Time",
            StandardScalar::Timestamp => "Timestamp",
            StandardScalar::Duration => "Duration",
            StandardScalar::Void => "Void",
        }
    }
}

/// The resolved semantic type of a value.
#[derive(Clone, Copy, Debug, PartialEq, Eq, Structural)]
pub enum ResolvedType {
    /// A standard scalar type.
    Scalar(StandardScalar),
    /// A nominal record or enumeration type.
    Named(TypeId),
    /// A registered opaque value type.
    Value(TypeId),
    /// A reference to an object of the type.
    Reference(TypeId),
}

impl ResolvedType {
    /// The readable form of this type. The messages of this library render types
    /// in this form, which is its own.
    pub open spec fn text(self) -> Seq<char> {
        match self {
            ResolvedType::Scalar(scalar) => "Scalar("@ + scalar.text() + ")"@,
            ResolvedType::Named(type_id) => "Named("@ + identity_text(type_id.0) + ")"@,
            ResolvedType::Value(type_id) => "Value("@ + identity_text(type_id.0) + ")"@,
            ResolvedType::Reference(type_id) => "Reference("@ + identity_text(type_id.0) + ")"@,
        }
    }

    /// Renders this type for a reader.
    pub fn message(self) -> (message: String)
        ensures
            message@ == self.text(),
    {
        match self {
            ResolvedType::Scalar(scalar) => with_text_then("Scalar(", scalar.name(), ")"),
            ResolvedType::Named(type_id) => with_identity_then("Named(", type_id.0, ")"),
            ResolvedType::Value(type_id) => with_identity_then("Value(", type_id.0, ")"),
            ResolvedType::Reference(type_id) => with_identity_then("Reference(", type_id.0, ")"),
        }
    }

    /// Creates a standard scalar type.
    pub fn scalar(scalar: StandardScalar) -> (resolved_type: ResolvedType)
        ensures
            resolved_type == ResolvedType::Scalar(scalar),
    {
        ResolvedType::Scalar(scalar)
    }

    /// Creates a nominal type.
    pub fn named(type_id: TypeId) -> (resolved_type: ResolvedType)
        ensures
            resolved_type == ResolvedType::Named(type_id),
    {
        ResolvedType::Named(type_id)
    }

    /// Creates a reference type.
    pub fn reference(type_id: TypeId) -> (resolved_type: ResolvedType)
        ensures
            resolved_type == ResolvedType::Reference(type_id),
    {
        ResolvedType::Reference(type_id)
    }
}

} // verus!
