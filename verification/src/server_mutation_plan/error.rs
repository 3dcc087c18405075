//! The failures of server mutation plans.

use vstd::prelude::*;

use crate::artifact_codec::DecodeError;
use crate::identity::{FieldId, FunctionId, TypeId};
use crate::resolved_type::ResolvedType;
use crate::text::{append_decimal, append_identity, decimal, identity_text};

verus! {

/// An error returned when a mutation plan cannot be validated or decoded.
#[non_exhaustive]
#[derive(Clone, Debug, Eq, PartialEq)]
pub enum ServerMutationPlanError {
    /// The artefact does not start with the mutation-plan magic bytes.
    InvalidMagic,
    /// The artefact version is not supported.
    UnsupportedVersion(u32),
    /// The encoded version does not match the expression set.
    NonCanonicalFormatVersion {
        /// The version selected by the decoded plan.
        expected: u32,
        /// The version carried by the artefact.
        actual: u32,
    },
    /// An enum tag is not defined by this format version.
    InvalidEnumTag {
        /// The encoded enum category.
        kind: &'static str,
        /// The encoded tag.
        tag: u8,
    },
    /// A boolean byte was not zero or one.
    InvalidBoolean {
        /// The encoded boolean category.
        context: &'static str,
        /// The encoded byte.
        value: u8,
    },
    /// A collection exceeds the format limit.
    CollectionLimit {
        /// The collection category.
        kind: &'static str,
        /// The supplied count.
        count: usize,
        /// The largest valid count.
        maximum: u32,
    },
    /// The encoded artefact exceeds the format byte limit.
    ArtifactSizeLimit {
        /// The supplied artefact size.
        size: usize,
        /// The largest accepted artefact size.
        maximum: usize,
    },
    /// A mutation plan must contain at least one assignment.
    EmptyAssignments,
    /// A record constructor must contain at least one field.
    EmptyRecordFields,
    /// A record constructor is not accepted by UPDATE.
    RecordConstructorRequiresInsert,
    /// A record field owner differs from the outer record type.
    RecordFieldOwnerMismatch {
        /// The field's zero-based declaration position.
        position: usize,
        /// The outer record type.
        expected: TypeId,
        /// The field's supplied owner.
        actual: TypeId,
    },
    /// Two record entries address the same owner-qualified field.
    DuplicateRecordField {
        /// The first field's zero-based position.
        first: usize,
        /// The duplicate field's zero-based position.
        duplicate: usize,
        /// The record owner identity.
        owner: TypeId,
        /// The duplicate field identity.
        field: FieldId,
    },
    /// An assignment owner differs from the mutation target.
    AssignmentOwnerMismatch {
        /// The assignment's zero-based position.
        assignment: usize,
        /// The insert target identity.
        target: TypeId,
        /// The assignment owner identity.
        owner: TypeId,
    },
    /// Two assignments address the same owner-qualified field.
    DuplicateFieldAssignment {
        /// The first assignment's zero-based position.
        first: usize,
        /// The duplicate assignment's zero-based position.
        duplicate: usize,
        /// The field owner identity.
        owner: TypeId,
        /// The duplicate field identity.
        field: FieldId,
    },
    /// Parameter reads do not all belong to one function.
    MixedParameterOwners {
        /// The first parameter assignment's position.
        first: usize,
        /// The mixed-owner assignment's position.
        assignment: usize,
        /// The first parameter owner.
        expected: FunctionId,
        /// The mixed parameter owner.
        actual: FunctionId,
    },
    /// An UPDATE assignment reads a parameter from another function.
    SelectorParameterOwnerMismatch {
        /// The assignment's zero-based position.
        assignment: usize,
        /// The function that owns the selector parameter.
        selector_owner: FunctionId,
        /// The function that owns the assignment parameter.
        assignment_owner: FunctionId,
    },
    /// A parameter, typed NULL, or record child uses a type outside the closed set.
    UnsupportedValueType {
        /// The rejected resolved type.
        resolved_type: ResolvedType,
    },
    /// An expression carries a type different from its fixed kind type.
    ExpressionTypeMismatch {
        /// The expression kind being checked.
        expression_kind: &'static str,
        /// The required type.
        expected: ResolvedType,
        /// The supplied type.
        actual: ResolvedType,
    },
    /// An expression carries the wrong nullability.
    ExpressionNullabilityMismatch {
        /// The expression kind being checked.
        expression_kind: &'static str,
        /// The required nullability.
        expected: bool,
        /// The supplied nullability.
        actual: bool,
    },
    /// The returned reference target differs from the mutation target.
    ReturnedObjectMismatch {
        /// The insert target identity.
        target: TypeId,
        /// The returned reference target identity.
        returned: TypeId,
    },
    /// The artefact ends before a complete value can be read.
    Truncated,
    /// The artefact contains bytes after a complete plan.
    TrailingBytes,
}

/// The text of a truth value.
pub open spec fn truth_text(value: bool) -> Seq<char> {
    if value {
        "true"@
    } else {
        "false"@
    }
}

/// Returns the text of a truth value.
fn truth_name(value: bool) -> (name: &'static str)
    ensures
        name@ == truth_text(value),
{
    if value {
        "true"
    } else {
        "false"
    }
}

impl ServerMutationPlanError {
    /// The text of this error.
    pub open spec fn text(self) -> Seq<char> {
        match self {
            ServerMutationPlanError::InvalidMagic => "invalid orna.server-mutation-plan artifact magic"@,
            ServerMutationPlanError::UnsupportedVersion(version) => {
                "unsupported orna.server-mutation-plan artifact version "@
                    + decimal(version as nat)
            },
            ServerMutationPlanError::NonCanonicalFormatVersion { expected, actual } => {
                "server mutation plan version "@
                    + decimal(actual as nat)
                    + " is not canonical for content requiring version "@
                    + decimal(expected as nat)
            },
            ServerMutationPlanError::InvalidEnumTag { kind, tag } => {
                "invalid "@
                    + kind@
                    + " tag "@
                    + decimal(tag as nat)
            },
            ServerMutationPlanError::InvalidBoolean { context, value } => {
                "invalid "@
                    + context@
                    + " boolean byte "@
                    + decimal(value as nat)
            },
            ServerMutationPlanError::CollectionLimit { kind, count, maximum } => {
                kind@
                    + " count "@
                    + decimal(count as nat)
                    + " exceeds the limit "@
                    + decimal(maximum as nat)
            },
            ServerMutationPlanError::ArtifactSizeLimit { size, maximum } => {
                "server mutation plan artifact size "@
                    + decimal(size as nat)
                    + " exceeds the limit "@
                    + decimal(maximum as nat)
            },
            ServerMutationPlanError::EmptyAssignments => {
                "a server mutation plan must contain at least one assignment"@
            },
            ServerMutationPlanError::EmptyRecordFields => "a record constructor must contain at least one field"@,
            ServerMutationPlanError::RecordConstructorRequiresInsert => {
                "record constructors are accepted only by INSERT plans"@
            },
            ServerMutationPlanError::RecordFieldOwnerMismatch { position, expected, actual } => {
                "record field "@
                    + decimal(position as nat)
                    + " owner "@
                    + identity_text(actual.0)
                    + " differs from record type "@
                    + identity_text(expected.0)
            },
            ServerMutationPlanError::DuplicateRecordField { first, duplicate, owner, field } => {
                "record field "@
                    + decimal(duplicate as nat)
                    + " duplicates owner-qualified field "@
                    + identity_text(owner.0)
                    + "."@
                    + identity_text(field.0)
                    + " from field "@
                    + decimal(first as nat)
            },
            ServerMutationPlanError::AssignmentOwnerMismatch { assignment, target, owner } => {
                "assignment "@
                    + decimal(assignment as nat)
                    + " owner "@
                    + identity_text(owner.0)
                    + " differs from mutation target "@
                    + identity_text(target.0)
            },
            ServerMutationPlanError::DuplicateFieldAssignment { first, duplicate, owner, field } => {
                "assignment "@
                    + decimal(duplicate as nat)
                    + " duplicates owner-qualified field "@
                    + identity_text(owner.0)
                    + "."@
                    + identity_text(field.0)
                    + " from assignment "@
                    + decimal(first as nat)
            },
            ServerMutationPlanError::MixedParameterOwners { first, assignment, expected, actual } => {
                "assignment "@
                    + decimal(assignment as nat)
                    + " parameter owner "@
                    + identity_text(actual.0)
                    + " differs from assignment "@
                    + decimal(first as nat)
                    + " owner "@
                    + identity_text(expected.0)
            },
            ServerMutationPlanError::SelectorParameterOwnerMismatch { assignment, selector_owner, assignment_owner } => {
                "assignment "@
                    + decimal(assignment as nat)
                    + " parameter owner "@
                    + identity_text(assignment_owner.0)
                    + " differs from selector owner "@
                    + identity_text(selector_owner.0)
            },
            ServerMutationPlanError::UnsupportedValueType { resolved_type } => {
                "unsupported mutation value type "@
                    + resolved_type.text()
            },
            ServerMutationPlanError::ExpressionTypeMismatch { expression_kind, expected, actual } => {
                expression_kind@
                    + " expression requires type "@
                    + expected.text()
                    + ", found "@
                    + actual.text()
            },
            ServerMutationPlanError::ExpressionNullabilityMismatch { expression_kind, expected, actual } => {
                expression_kind@
                    + " expression requires nullable="@
                    + truth_text(expected)
                    + ", found nullable="@
                    + truth_text(actual)
            },
            ServerMutationPlanError::ReturnedObjectMismatch { target, returned } => {
                "returned object "@
                    + identity_text(returned.0)
                    + " differs from mutation target "@
                    + identity_text(target.0)
            },
            ServerMutationPlanError::Truncated => "truncated orna.server-mutation-plan artifact"@,
            ServerMutationPlanError::TrailingBytes => "trailing bytes after orna.server-mutation-plan artifact"@,
        }
    }

    /// Renders this error for a reader.
    pub fn message(&self) -> (message: String)
        ensures
            message@ == self.text(),
    {
        match self {
            ServerMutationPlanError::InvalidMagic => "invalid orna.server-mutation-plan artifact magic".to_owned(),
            ServerMutationPlanError::UnsupportedVersion(version) => {
                let mut message = "unsupported orna.server-mutation-plan artifact version ".to_owned();
                append_decimal(&mut message, *version as u64);
                message
            },
            ServerMutationPlanError::NonCanonicalFormatVersion { expected, actual } => {
                let mut message = "server mutation plan version ".to_owned();
                append_decimal(&mut message, *actual as u64);
                message.append(" is not canonical for content requiring version ");
                append_decimal(&mut message, *expected as u64);
                message
            },
            ServerMutationPlanError::InvalidEnumTag { kind, tag } => {
                let mut message = "invalid ".to_owned();
                message.append(kind);
                message.append(" tag ");
                append_decimal(&mut message, *tag as u64);
                message
            },
            ServerMutationPlanError::InvalidBoolean { context, value } => {
                let mut message = "invalid ".to_owned();
                message.append(context);
                message.append(" boolean byte ");
                append_decimal(&mut message, *value as u64);
                message
            },
            ServerMutationPlanError::CollectionLimit { kind, count, maximum } => {
                let mut message = (*kind).to_owned();
                message.append(" count ");
                append_decimal(&mut message, *count as u64);
                message.append(" exceeds the limit ");
                append_decimal(&mut message, *maximum as u64);
                message
            },
            ServerMutationPlanError::ArtifactSizeLimit { size, maximum } => {
                let mut message = "server mutation plan artifact size ".to_owned();
                append_decimal(&mut message, *size as u64);
                message.append(" exceeds the limit ");
                append_decimal(&mut message, *maximum as u64);
                message
            },
            ServerMutationPlanError::EmptyAssignments => {
                "a server mutation plan must contain at least one assignment".to_owned()
            },
            ServerMutationPlanError::EmptyRecordFields => {
                "a record constructor must contain at least one field".to_owned()
            },
            ServerMutationPlanError::RecordConstructorRequiresInsert => {
                "record constructors are accepted only by INSERT plans".to_owned()
            },
            ServerMutationPlanError::RecordFieldOwnerMismatch { position, expected, actual } => {
                let mut message = "record field ".to_owned();
                append_decimal(&mut message, *position as u64);
                message.append(" owner ");
                append_identity(&mut message, actual.0);
                message.append(" differs from record type ");
                append_identity(&mut message, expected.0);
                message
            },
            ServerMutationPlanError::DuplicateRecordField { first, duplicate, owner, field } => {
                let mut message = "record field ".to_owned();
                append_decimal(&mut message, *duplicate as u64);
                message.append(" duplicates owner-qualified field ");
                append_identity(&mut message, owner.0);
                message.append(".");
                append_identity(&mut message, field.0);
                message.append(" from field ");
                append_decimal(&mut message, *first as u64);
                message
            },
            ServerMutationPlanError::AssignmentOwnerMismatch { assignment, target, owner } => {
                let mut message = "assignment ".to_owned();
                append_decimal(&mut message, *assignment as u64);
                message.append(" owner ");
                append_identity(&mut message, owner.0);
                message.append(" differs from mutation target ");
                append_identity(&mut message, target.0);
                message
            },
            ServerMutationPlanError::DuplicateFieldAssignment { first, duplicate, owner, field } => {
                let mut message = "assignment ".to_owned();
                append_decimal(&mut message, *duplicate as u64);
                message.append(" duplicates owner-qualified field ");
                append_identity(&mut message, owner.0);
                message.append(".");
                append_identity(&mut message, field.0);
                message.append(" from assignment ");
                append_decimal(&mut message, *first as u64);
                message
            },
            ServerMutationPlanError::MixedParameterOwners { first, assignment, expected, actual } => {
                let mut message = "assignment ".to_owned();
                append_decimal(&mut message, *assignment as u64);
                message.append(" parameter owner ");
                append_identity(&mut message, actual.0);
                message.append(" differs from assignment ");
                append_decimal(&mut message, *first as u64);
                message.append(" owner ");
                append_identity(&mut message, expected.0);
                message
            },
            ServerMutationPlanError::SelectorParameterOwnerMismatch { assignment, selector_owner, assignment_owner } => {
                let mut message = "assignment ".to_owned();
                append_decimal(&mut message, *assignment as u64);
                message.append(" parameter owner ");
                append_identity(&mut message, assignment_owner.0);
                message.append(" differs from selector owner ");
                append_identity(&mut message, selector_owner.0);
                message
            },
            ServerMutationPlanError::UnsupportedValueType { resolved_type } => {
                let mut message = "unsupported mutation value type ".to_owned();
                message.append(resolved_type.message().as_str());
                message
            },
            ServerMutationPlanError::ExpressionTypeMismatch { expression_kind, expected, actual } => {
                let mut message = (*expression_kind).to_owned();
                message.append(" expression requires type ");
                message.append(expected.message().as_str());
                message.append(", found ");
                message.append(actual.message().as_str());
                message
            },
            ServerMutationPlanError::ExpressionNullabilityMismatch { expression_kind, expected, actual } => {
                let mut message = (*expression_kind).to_owned();
                message.append(" expression requires nullable=");
                message.append(truth_name(*expected));
                message.append(", found nullable=");
                message.append(truth_name(*actual));
                message
            },
            ServerMutationPlanError::ReturnedObjectMismatch { target, returned } => {
                let mut message = "returned object ".to_owned();
                append_identity(&mut message, returned.0);
                message.append(" differs from mutation target ");
                append_identity(&mut message, target.0);
                message
            },
            ServerMutationPlanError::Truncated => "truncated orna.server-mutation-plan artifact".to_owned(),
            ServerMutationPlanError::TrailingBytes => {
                "trailing bytes after orna.server-mutation-plan artifact".to_owned()
            },
        }
    }
}

impl From<DecodeError> for ServerMutationPlanError {
    fn from(error: DecodeError) -> (mapped: ServerMutationPlanError) {
        match error {
            DecodeError::Truncated => ServerMutationPlanError::Truncated,
            DecodeError::TrailingBytes => ServerMutationPlanError::TrailingBytes,
        }
    }
}

impl vstd::std_specs::convert::FromSpecImpl<DecodeError> for ServerMutationPlanError {
    open spec fn obeys_from_spec() -> bool {
        true
    }

    open spec fn from_spec(error: DecodeError) -> ServerMutationPlanError {
        match error {
            DecodeError::Truncated => ServerMutationPlanError::Truncated,
            DecodeError::TrailingBytes => ServerMutationPlanError::TrailingBytes,
        }
    }
}

} // verus!
