//! The failures of client-plan artefacts.

use vstd::prelude::*;

use crate::artifact_codec::DecodeError;
use crate::identity::{LocalId, ParameterId, StateSlotId, TypeId};
use crate::text::{append_identity, decimal, identity_text};
use crate::text::{with_identity, with_identity_then, with_number, with_number_then, with_numbers, with_text};

verus! {

/// An error returned for an invalid or unsupported client-plan artefact.
#[non_exhaustive]
#[derive(Clone, Debug, Eq, PartialEq)]
pub enum ClientPlanError {
    /// The artefact does not start with the shared client-plan magic bytes.
    InvalidMagic,
    /// The artefact version is not supported.
    UnsupportedVersion(u32),
    /// The operation tag is not defined by the selected artefact version.
    InvalidOperation(u8),
    /// The Boolean payload is not zero or one.
    InvalidBoolean(u8),
    /// A version-2 opaque payload length exceeds the client-plan size bound.
    InvalidOpaquePayloadLength {
        /// The non-canonical length from the artefact.
        actual: u32,
    },
    /// A version-3 expression node uses an unknown tag.
    InvalidExpressionNode(u8),
    /// A version-10 unary operator uses an unknown tag.
    InvalidControlFlowUnaryOperator(u8),
    /// A version-10 binary operator uses an unknown tag.
    InvalidControlFlowBinaryOperator(u8),
    /// A version-10 statement uses an unknown tag.
    InvalidControlFlowStatement(u8),
    /// A version-10 return expression marker uses an unknown tag.
    InvalidControlFlowReturnTag(u8),
    /// A version-10 `IF` else-body marker uses an unknown tag.
    InvalidControlFlowElseTag(u8),
    /// A version-10 `IF` statement contains no branches.
    InvalidControlFlowBranchCount {
        /// The non-canonical branch count from the artefact.
        actual: u32,
    },
    /// A version-10 plan exceeds its local declaration limit.
    ControlFlowLocalLimitExceeded {
        /// The exceeded limit.
        limit: usize,
    },
    /// A version-10 block or plan exceeds its statement limit.
    ControlFlowStatementLimitExceeded {
        /// The exceeded limit.
        limit: usize,
    },
    /// A version-10 `IF` statement exceeds its branch limit.
    ControlFlowBranchLimitExceeded {
        /// The exceeded limit.
        limit: usize,
    },
    /// A version-10 block nesting depth exceeds the format limit.
    ControlFlowBlockDepthExceeded,
    /// A version-10 plan repeats one local identity.
    DuplicateControlFlowLocal(LocalId),
    /// A version-10 statement or expression reads an undeclared local.
    UnknownControlFlowLocal(LocalId),
    /// A version-10 expression reads a local before its initializing LET.
    ControlFlowLocalReadBeforeLet(LocalId),
    /// A version-10 assignment targets a local before its initializing LET.
    ControlFlowAssignmentBeforeLet(LocalId),
    /// A version-10 local has more than one initializing LET.
    DuplicateControlFlowLet(LocalId),
    /// A version-10 local has no initializing LET statement.
    MissingControlFlowLet(LocalId),
    /// A version-10 initializer does not match its local's kind.
    ControlFlowLocalKindMismatch(LocalId),
    /// An Inspector operation uses an unknown operation tag.
    InvalidInspectOperation(u8),
    /// Inspector snapshot options are outside the structural-only v1 contract.
    UnsupportedInspectOptions,
    /// An Inspector projection uses an unknown projection tag.
    InvalidInspectProjection(u8),
    /// Version nine must contain at least one Inspector node.
    InvalidInspectPlan,
    /// A version-3 expression tree exceeds the depth cap.
    ExpressionDepthExceeded,
    /// A version-3 expression tree exceeds the node-count cap.
    ExpressionNodeCountExceeded,
    /// A version-3 call or field path exceeds its per-node cap.
    ExpressionCollectionExceeded {
        /// The exceeded limit.
        limit: usize,
    },
    /// An action operation uses an unknown CLIENT/SERVER domain tag.
    InvalidActionDomain(u8),
    /// An action operation carries an empty stable identity.
    InvalidActionIdentity,
    /// An action operation exceeds its argument limit.
    ActionArgumentLimitExceeded {
        /// The exceeded limit.
        limit: usize,
    },
    /// An action argument parameter identity occurs more than once.
    DuplicateActionArgument(ParameterId),
    /// Action arguments are not sorted by ascending ParameterId.
    NonCanonicalActionArgumentOrder,
    /// A resource operation uses an unknown scalar/stream tag.
    InvalidResourceKind(u8),
    /// A resource operation or argument carries an empty stable identity.
    InvalidResourceIdentity,
    /// A version-6 plan contains no resource operation nodes.
    InvalidResourceOperationCount {
        /// The non-canonical count from the artefact.
        actual: u32,
    },
    /// A version-6 plan exceeds its resource operation limit.
    ResourceOperationLimitExceeded {
        /// The exceeded limit.
        limit: usize,
    },
    /// A resource operation exceeds its argument limit.
    ResourceArgumentLimitExceeded {
        /// The exceeded limit.
        limit: usize,
    },
    /// A procedural local declaration uses an unknown value/resource kind.
    InvalidLocalKind(u8),
    /// A procedural statement uses an unknown tag.
    InvalidProceduralStatement(u8),
    /// A procedural plan exceeds its local declaration limit.
    ProceduralLocalLimitExceeded {
        /// The exceeded limit.
        limit: usize,
    },
    /// A procedural plan exceeds its ordered statement limit.
    ProceduralStatementLimitExceeded {
        /// The exceeded limit.
        limit: usize,
    },
    /// A procedural plan repeats one local identity.
    DuplicateProceduralLocal(LocalId),
    /// A statement or expression reads a local not declared by the plan.
    UnknownProceduralLocal(LocalId),
    /// A procedural expression reads a declared local before its LET statement.
    ProceduralLocalReadBeforeLet(LocalId),
    /// A statement initializer does not match its local's resource/value kind.
    ProceduralLocalKindMismatch(LocalId),
    /// A direct resource initializer result type does not match its local declaration.
    ProceduralLocalTypeMismatch {
        /// The target local identity.
        local: LocalId,
        /// The local declaration's type identity.
        expected: TypeId,
        /// The resource operation's result type identity.
        actual: TypeId,
    },
    /// A resource local is read where a value is required without AWAIT.
    UnawaitedResourceLocal(LocalId),
    /// A local has more than one LET statement.
    DuplicateProceduralLet(LocalId),
    /// An assignment appears before the target local's LET statement.
    ProceduralAssignmentBeforeLet(LocalId),
    /// A declared local has no LET statement.
    MissingProceduralLet(LocalId),
    /// An AWAIT reads a local that is not a resource handle.
    InvalidAwaitOperand(LocalId),
    /// A resource argument parameter identity occurs more than once.
    DuplicateResourceArgument(ParameterId),
    /// Resource arguments are not sorted by ascending ParameterId.
    NonCanonicalResourceArgumentOrder,
    /// A version-4 state slot uses an unknown scope tag.
    InvalidStateScope(u8),
    /// A version-4 state slot uses an unknown default tag.
    InvalidStateDefaultTag(u8),
    /// A version-4 plan declares zero state slots.
    InvalidStateSlotCount {
        /// The non-canonical count from the artefact.
        actual: u32,
    },
    /// A version-4 plan declares more state slots than the format allows.
    StateSlotLimitExceeded {
        /// The exceeded limit.
        limit: usize,
    },
    /// A version-4 plan repeats one state-slot identity.
    DuplicateStateSlotId(StateSlotId),
    /// A version-5 plan declares zero capability requirements.
    InvalidCapabilityCount {
        /// The non-canonical count from the artefact.
        actual: u32,
    },
    /// A version-5 plan declares more requirements than the format allows.
    CapabilityLimitExceeded {
        /// The exceeded limit.
        limit: usize,
    },
    /// A version-5 plan repeats one capability requirement name.
    DuplicateCapabilityName(String),
    /// A version-5 capability name is empty.
    EmptyCapabilityName,
    /// A version-5 capability argument is empty.
    EmptyCapabilityArgument,
    /// A version-5 capability name exceeds the length limit.
    CapabilityNameTooLong {
        /// The offending name length.
        length: usize,
        /// The largest accepted name length.
        limit: usize,
    },
    /// A version-5 capability argument exceeds the length limit.
    CapabilityArgumentTooLong {
        /// The offending argument length.
        length: usize,
        /// The largest accepted argument length.
        limit: usize,
    },
    /// A version-5 capability name is not valid UTF-8.
    InvalidCapabilityNameUtf8,
    /// A version-5 capability argument is not valid UTF-8.
    InvalidCapabilityArgumentUtf8,
    /// A version-5 capability argument uses an unknown tag.
    InvalidCapabilityArgumentTag(u8),
    /// A version-5 envelope carries an unsupported inner plan version.
    UnsupportedInnerVersion(u32),
    /// A version-5 envelope declares a version that does not match its payload.
    InnerVersionMismatch {
        /// The version declared by the envelope.
        declared: u32,
        /// The canonical version decoded from the payload.
        actual: u32,
    },
    /// The encoded artefact exceeds the format byte limit.
    ArtifactSizeLimit {
        /// The supplied artefact size.
        size: usize,
        /// The largest accepted artefact size.
        maximum: usize,
    },
    /// The artefact ends before a complete value can be read.
    Truncated,
    /// The artefact contains bytes after a complete value.
    TrailingBytes,
}

impl ClientPlanError {
    /// The text of this error.
    pub open spec fn text(self) -> Seq<char> {
        match self {
            ClientPlanError::InvalidMagic => "invalid orna.client-plan artefact magic"@,
            ClientPlanError::UnsupportedVersion(version) => {
                "unsupported orna.client-plan artefact version "@ + decimal(version as nat)
            },
            ClientPlanError::InvalidOperation(tag) => "invalid client-plan operation tag "@ + decimal(tag as nat),
            ClientPlanError::InvalidBoolean(value) => "invalid client-plan Boolean byte "@ + decimal(value as nat),
            ClientPlanError::InvalidOpaquePayloadLength { actual } => {
                "invalid client-plan opaque payload length "@ + decimal(actual as nat)
            },
            ClientPlanError::InvalidExpressionNode(tag) => {
                "invalid client-plan expression node tag "@ + decimal(tag as nat)
            },
            ClientPlanError::InvalidControlFlowUnaryOperator(tag) => {
                "invalid client-plan control-flow unary operator tag "@ + decimal(tag as nat)
            },
            ClientPlanError::InvalidControlFlowBinaryOperator(tag) => {
                "invalid client-plan control-flow binary operator tag "@ + decimal(tag as nat)
            },
            ClientPlanError::InvalidControlFlowStatement(tag) => {
                "invalid client-plan control-flow statement tag "@ + decimal(tag as nat)
            },
            ClientPlanError::InvalidControlFlowReturnTag(tag) => {
                "invalid client-plan control-flow return tag "@ + decimal(tag as nat)
            },
            ClientPlanError::InvalidControlFlowElseTag(tag) => {
                "invalid client-plan control-flow else-body tag "@ + decimal(tag as nat)
            },
            ClientPlanError::InvalidControlFlowBranchCount { actual } => {
                "invalid client-plan control-flow branch count "@ + decimal(actual as nat)
                    + "; an IF requires at least one branch"@
            },
            ClientPlanError::ControlFlowLocalLimitExceeded { limit } => {
                "client-plan control-flow local count exceeds the limit "@ + decimal(limit as nat)
            },
            ClientPlanError::ControlFlowStatementLimitExceeded { limit } => {
                "client-plan control-flow statement count exceeds the limit "@ + decimal(limit as nat)
            },
            ClientPlanError::ControlFlowBranchLimitExceeded { limit } => {
                "client-plan control-flow branch count exceeds the limit "@ + decimal(limit as nat)
            },
            ClientPlanError::ControlFlowBlockDepthExceeded => {
                "client-plan control-flow block nesting exceeds the depth cap"@
            },
            ClientPlanError::DuplicateControlFlowLocal(local) => {
                "duplicate client-plan control-flow local "@ + identity_text(local.0)
            },
            ClientPlanError::UnknownControlFlowLocal(local) => {
                "unknown client-plan control-flow local "@ + identity_text(local.0)
            },
            ClientPlanError::ControlFlowLocalReadBeforeLet(local) => {
                "client-plan control-flow local "@ + identity_text(local.0) + " is read before LET"@
            },
            ClientPlanError::ControlFlowAssignmentBeforeLet(local) => {
                "client-plan control-flow assignment targets local "@ + identity_text(local.0) + " before LET"@
            },
            ClientPlanError::DuplicateControlFlowLet(local) => {
                "duplicate LET for client-plan control-flow local "@ + identity_text(local.0)
            },
            ClientPlanError::MissingControlFlowLet(local) => {
                "client-plan control-flow local "@ + identity_text(local.0) + " has no LET statement"@
            },
            ClientPlanError::ControlFlowLocalKindMismatch(local) => {
                "client-plan control-flow local "@ + identity_text(local.0) + " has an incompatible initializer kind"@
            },
            ClientPlanError::InvalidInspectOperation(tag) => {
                "invalid client-plan Inspector operation tag "@ + decimal(tag as nat)
            },
            ClientPlanError::UnsupportedInspectOptions => {
                "typed client-plan Inspector snapshot options are unsupported in v1"@
            },
            ClientPlanError::InvalidInspectProjection(tag) => {
                "invalid client-plan Inspector projection tag "@ + decimal(tag as nat)
            },
            ClientPlanError::InvalidInspectPlan => "version-nine client plan contains no Inspector node"@,
            ClientPlanError::ExpressionDepthExceeded => "client-plan expression tree exceeds the depth cap"@,
            ClientPlanError::ExpressionNodeCountExceeded => "client-plan expression tree exceeds the node-count cap"@,
            ClientPlanError::ExpressionCollectionExceeded { limit } => {
                "client-plan expression collection exceeds the limit "@ + decimal(limit as nat)
            },
            ClientPlanError::InvalidActionDomain(tag) => {
                "invalid client-plan action domain tag "@ + decimal(tag as nat)
            },
            ClientPlanError::InvalidActionIdentity => "invalid client-plan action identity"@,
            ClientPlanError::ActionArgumentLimitExceeded { limit } => {
                "client-plan action argument count exceeds the limit "@ + decimal(limit as nat)
            },
            ClientPlanError::DuplicateActionArgument(parameter) => {
                "duplicate client-plan action argument "@ + identity_text(parameter.0)
            },
            ClientPlanError::NonCanonicalActionArgumentOrder => {
                "client-plan action arguments are not in canonical ParameterId order"@
            },
            ClientPlanError::InvalidResourceKind(tag) => {
                "invalid client-plan resource kind tag "@ + decimal(tag as nat)
            },
            ClientPlanError::InvalidResourceIdentity => "invalid client-plan resource identity"@,
            ClientPlanError::InvalidResourceOperationCount { actual } => {
                "invalid client-plan resource operation count "@ + decimal(actual as nat)
                    + "; a resource plan requires at least one operation"@
            },
            ClientPlanError::ResourceOperationLimitExceeded { limit } => {
                "client-plan resource operation count exceeds the limit "@ + decimal(limit as nat)
            },
            ClientPlanError::ResourceArgumentLimitExceeded { limit } => {
                "client-plan resource argument count exceeds the limit "@ + decimal(limit as nat)
            },
            ClientPlanError::InvalidLocalKind(tag) => {
                "invalid client-plan procedural local kind tag "@ + decimal(tag as nat)
            },
            ClientPlanError::InvalidProceduralStatement(tag) => {
                "invalid client-plan procedural statement tag "@ + decimal(tag as nat)
            },
            ClientPlanError::ProceduralLocalLimitExceeded { limit } => {
                "client-plan procedural local count exceeds the limit "@ + decimal(limit as nat)
            },
            ClientPlanError::ProceduralStatementLimitExceeded { limit } => {
                "client-plan procedural statement count exceeds the limit "@ + decimal(limit as nat)
            },
            ClientPlanError::DuplicateProceduralLocal(local) => {
                "duplicate client-plan procedural local "@ + identity_text(local.0)
            },
            ClientPlanError::UnknownProceduralLocal(local) => {
                "unknown client-plan procedural local "@ + identity_text(local.0)
            },
            ClientPlanError::ProceduralLocalReadBeforeLet(local) => {
                "client-plan procedural local "@ + identity_text(local.0) + " is read before LET"@
            },
            ClientPlanError::ProceduralLocalKindMismatch(local) => {
                "client-plan procedural local "@ + identity_text(local.0) + " has an incompatible initializer kind"@
            },
            ClientPlanError::ProceduralLocalTypeMismatch { local, expected, actual } => {
                "client-plan procedural local "@ + identity_text(local.0) + " expects resource type "@
                    + identity_text(expected.0) + ", got "@ + identity_text(actual.0)
            },
            ClientPlanError::UnawaitedResourceLocal(local) => {
                "client-plan resource local "@ + identity_text(local.0) + " must be awaited before use as a value"@
            },
            ClientPlanError::DuplicateProceduralLet(local) => {
                "duplicate LET for client-plan procedural local "@ + identity_text(local.0)
            },
            ClientPlanError::ProceduralAssignmentBeforeLet(local) => {
                "client-plan procedural assignment targets local "@ + identity_text(local.0) + " before LET"@
            },
            ClientPlanError::MissingProceduralLet(local) => {
                "client-plan procedural local "@ + identity_text(local.0) + " has no LET statement"@
            },
            ClientPlanError::InvalidAwaitOperand(local) => {
                "client-plan AWAIT operand local "@ + identity_text(local.0) + " is not a resource"@
            },
            ClientPlanError::DuplicateResourceArgument(parameter) => {
                "duplicate client-plan resource argument "@ + identity_text(parameter.0)
            },
            ClientPlanError::NonCanonicalResourceArgumentOrder => {
                "client-plan resource arguments are not in canonical ParameterId order"@
            },
            ClientPlanError::InvalidStateScope(tag) => "invalid client-plan state scope tag "@ + decimal(tag as nat),
            ClientPlanError::InvalidStateDefaultTag(tag) => {
                "invalid client-plan state default tag "@ + decimal(tag as nat)
            },
            ClientPlanError::InvalidStateSlotCount { actual } => {
                "invalid client-plan state slot count "@ + decimal(actual as nat)
                    + "; a state plan requires at least one slot"@
            },
            ClientPlanError::StateSlotLimitExceeded { limit } => {
                "client-plan state slot count exceeds the limit "@ + decimal(limit as nat)
            },
            ClientPlanError::DuplicateStateSlotId(id) => {
                "duplicate client-plan state slot identity "@ + identity_text(id.0)
            },
            ClientPlanError::InvalidCapabilityCount { actual } => {
                "invalid client-plan capability count "@ + decimal(actual as nat)
                    + "; a capability plan requires at least one requirement"@
            },
            ClientPlanError::CapabilityLimitExceeded { limit } => {
                "client-plan capability count exceeds the limit "@ + decimal(limit as nat)
            },
            ClientPlanError::DuplicateCapabilityName(name) => {
                "duplicate client-plan capability requirement "@ + name@
            },
            ClientPlanError::EmptyCapabilityName => "client-plan capability name must not be empty"@,
            ClientPlanError::EmptyCapabilityArgument => "client-plan capability argument must not be empty"@,
            ClientPlanError::CapabilityNameTooLong { length, limit } => {
                "client-plan capability name length "@ + decimal(length as nat) + " exceeds the limit "@
                    + decimal(limit as nat)
            },
            ClientPlanError::CapabilityArgumentTooLong { length, limit } => {
                "client-plan capability argument length "@ + decimal(length as nat) + " exceeds the limit "@
                    + decimal(limit as nat)
            },
            ClientPlanError::InvalidCapabilityNameUtf8 => "client-plan capability name is not valid UTF-8"@,
            ClientPlanError::InvalidCapabilityArgumentUtf8 => "client-plan capability argument is not valid UTF-8"@,
            ClientPlanError::InvalidCapabilityArgumentTag(tag) => {
                "invalid client-plan capability argument tag "@ + decimal(tag as nat)
            },
            ClientPlanError::UnsupportedInnerVersion(version) => {
                "unsupported inner client-plan version "@ + decimal(version as nat)
            },
            ClientPlanError::InnerVersionMismatch { declared, actual } => {
                "declared inner client-plan version "@ + decimal(declared as nat)
                    + " does not match payload version "@ + decimal(actual as nat)
            },
            ClientPlanError::ArtifactSizeLimit { size, maximum } => {
                "orna.client-plan artefact size "@ + decimal(size as nat) + " exceeds the limit "@
                    + decimal(maximum as nat)
            },
            ClientPlanError::Truncated => "truncated orna.client-plan artefact"@,
            ClientPlanError::TrailingBytes => "trailing bytes after orna.client-plan artefact"@,
        }
    }

    /// Renders this error for a reader.
    pub fn message(&self) -> (message: String)
        ensures
            message@ == self.text(),
    {
        match self {
            ClientPlanError::InvalidMagic => "invalid orna.client-plan artefact magic".to_owned(),
            ClientPlanError::UnsupportedVersion(version) => {
                with_number("unsupported orna.client-plan artefact version ", *version as u64)
            },
            ClientPlanError::InvalidOperation(tag) => with_number("invalid client-plan operation tag ", *tag as u64),
            ClientPlanError::InvalidBoolean(value) => with_number("invalid client-plan Boolean byte ", *value as u64),
            ClientPlanError::InvalidOpaquePayloadLength { actual } => {
                with_number("invalid client-plan opaque payload length ", *actual as u64)
            },
            ClientPlanError::InvalidExpressionNode(tag) => {
                with_number("invalid client-plan expression node tag ", *tag as u64)
            },
            ClientPlanError::InvalidControlFlowUnaryOperator(tag) => {
                with_number("invalid client-plan control-flow unary operator tag ", *tag as u64)
            },
            ClientPlanError::InvalidControlFlowBinaryOperator(tag) => {
                with_number("invalid client-plan control-flow binary operator tag ", *tag as u64)
            },
            ClientPlanError::InvalidControlFlowStatement(tag) => {
                with_number("invalid client-plan control-flow statement tag ", *tag as u64)
            },
            ClientPlanError::InvalidControlFlowReturnTag(tag) => {
                with_number("invalid client-plan control-flow return tag ", *tag as u64)
            },
            ClientPlanError::InvalidControlFlowElseTag(tag) => {
                with_number("invalid client-plan control-flow else-body tag ", *tag as u64)
            },
            ClientPlanError::InvalidControlFlowBranchCount { actual } => {
                with_number_then(
                    "invalid client-plan control-flow branch count ",
                    *actual as u64,
                    "; an IF requires at least one branch",
                )
            },
            ClientPlanError::ControlFlowLocalLimitExceeded { limit } => {
                with_number("client-plan control-flow local count exceeds the limit ", *limit as u64)
            },
            ClientPlanError::ControlFlowStatementLimitExceeded { limit } => {
                with_number("client-plan control-flow statement count exceeds the limit ", *limit as u64)
            },
            ClientPlanError::ControlFlowBranchLimitExceeded { limit } => {
                with_number("client-plan control-flow branch count exceeds the limit ", *limit as u64)
            },
            ClientPlanError::ControlFlowBlockDepthExceeded => {
                "client-plan control-flow block nesting exceeds the depth cap".to_owned()
            },
            ClientPlanError::DuplicateControlFlowLocal(local) => {
                with_identity("duplicate client-plan control-flow local ", local.0)
            },
            ClientPlanError::UnknownControlFlowLocal(local) => {
                with_identity("unknown client-plan control-flow local ", local.0)
            },
            ClientPlanError::ControlFlowLocalReadBeforeLet(local) => {
                with_identity_then("client-plan control-flow local ", local.0, " is read before LET")
            },
            ClientPlanError::ControlFlowAssignmentBeforeLet(local) => {
                with_identity_then("client-plan control-flow assignment targets local ", local.0, " before LET")
            },
            ClientPlanError::DuplicateControlFlowLet(local) => {
                with_identity("duplicate LET for client-plan control-flow local ", local.0)
            },
            ClientPlanError::MissingControlFlowLet(local) => {
                with_identity_then("client-plan control-flow local ", local.0, " has no LET statement")
            },
            ClientPlanError::ControlFlowLocalKindMismatch(local) => {
                with_identity_then(
                    "client-plan control-flow local ",
                    local.0,
                    " has an incompatible initializer kind",
                )
            },
            ClientPlanError::InvalidInspectOperation(tag) => {
                with_number("invalid client-plan Inspector operation tag ", *tag as u64)
            },
            ClientPlanError::UnsupportedInspectOptions => {
                "typed client-plan Inspector snapshot options are unsupported in v1".to_owned()
            },
            ClientPlanError::InvalidInspectProjection(tag) => {
                with_number("invalid client-plan Inspector projection tag ", *tag as u64)
            },
            ClientPlanError::InvalidInspectPlan => "version-nine client plan contains no Inspector node".to_owned(),
            ClientPlanError::ExpressionDepthExceeded => {
                "client-plan expression tree exceeds the depth cap".to_owned()
            },
            ClientPlanError::ExpressionNodeCountExceeded => {
                "client-plan expression tree exceeds the node-count cap".to_owned()
            },
            ClientPlanError::ExpressionCollectionExceeded { limit } => {
                with_number("client-plan expression collection exceeds the limit ", *limit as u64)
            },
            ClientPlanError::InvalidActionDomain(tag) => {
                with_number("invalid client-plan action domain tag ", *tag as u64)
            },
            ClientPlanError::InvalidActionIdentity => "invalid client-plan action identity".to_owned(),
            ClientPlanError::ActionArgumentLimitExceeded { limit } => {
                with_number("client-plan action argument count exceeds the limit ", *limit as u64)
            },
            ClientPlanError::DuplicateActionArgument(parameter) => {
                with_identity("duplicate client-plan action argument ", parameter.0)
            },
            ClientPlanError::NonCanonicalActionArgumentOrder => {
                "client-plan action arguments are not in canonical ParameterId order".to_owned()
            },
            ClientPlanError::InvalidResourceKind(tag) => {
                with_number("invalid client-plan resource kind tag ", *tag as u64)
            },
            ClientPlanError::InvalidResourceIdentity => "invalid client-plan resource identity".to_owned(),
            ClientPlanError::InvalidResourceOperationCount { actual } => {
                with_number_then(
                    "invalid client-plan resource operation count ",
                    *actual as u64,
                    "; a resource plan requires at least one operation",
                )
            },
            ClientPlanError::ResourceOperationLimitExceeded { limit } => {
                with_number("client-plan resource operation count exceeds the limit ", *limit as u64)
            },
            ClientPlanError::ResourceArgumentLimitExceeded { limit } => {
                with_number("client-plan resource argument count exceeds the limit ", *limit as u64)
            },
            ClientPlanError::InvalidLocalKind(tag) => {
                with_number("invalid client-plan procedural local kind tag ", *tag as u64)
            },
            ClientPlanError::InvalidProceduralStatement(tag) => {
                with_number("invalid client-plan procedural statement tag ", *tag as u64)
            },
            ClientPlanError::ProceduralLocalLimitExceeded { limit } => {
                with_number("client-plan procedural local count exceeds the limit ", *limit as u64)
            },
            ClientPlanError::ProceduralStatementLimitExceeded { limit } => {
                with_number("client-plan procedural statement count exceeds the limit ", *limit as u64)
            },
            ClientPlanError::DuplicateProceduralLocal(local) => {
                with_identity("duplicate client-plan procedural local ", local.0)
            },
            ClientPlanError::UnknownProceduralLocal(local) => {
                with_identity("unknown client-plan procedural local ", local.0)
            },
            ClientPlanError::ProceduralLocalReadBeforeLet(local) => {
                with_identity_then("client-plan procedural local ", local.0, " is read before LET")
            },
            ClientPlanError::ProceduralLocalKindMismatch(local) => {
                with_identity_then("client-plan procedural local ", local.0, " has an incompatible initializer kind")
            },
            ClientPlanError::ProceduralLocalTypeMismatch { local, expected, actual } => {
                let mut message = "client-plan procedural local ".to_owned();
                append_identity(&mut message, local.0);
                message.append(" expects resource type ");
                append_identity(&mut message, expected.0);
                message.append(", got ");
                append_identity(&mut message, actual.0);
                message
            },
            ClientPlanError::UnawaitedResourceLocal(local) => {
                with_identity_then("client-plan resource local ", local.0, " must be awaited before use as a value")
            },
            ClientPlanError::DuplicateProceduralLet(local) => {
                with_identity("duplicate LET for client-plan procedural local ", local.0)
            },
            ClientPlanError::ProceduralAssignmentBeforeLet(local) => {
                with_identity_then("client-plan procedural assignment targets local ", local.0, " before LET")
            },
            ClientPlanError::MissingProceduralLet(local) => {
                with_identity_then("client-plan procedural local ", local.0, " has no LET statement")
            },
            ClientPlanError::InvalidAwaitOperand(local) => {
                with_identity_then("client-plan AWAIT operand local ", local.0, " is not a resource")
            },
            ClientPlanError::DuplicateResourceArgument(parameter) => {
                with_identity("duplicate client-plan resource argument ", parameter.0)
            },
            ClientPlanError::NonCanonicalResourceArgumentOrder => {
                "client-plan resource arguments are not in canonical ParameterId order".to_owned()
            },
            ClientPlanError::InvalidStateScope(tag) => {
                with_number("invalid client-plan state scope tag ", *tag as u64)
            },
            ClientPlanError::InvalidStateDefaultTag(tag) => {
                with_number("invalid client-plan state default tag ", *tag as u64)
            },
            ClientPlanError::InvalidStateSlotCount { actual } => {
                with_number_then(
                    "invalid client-plan state slot count ",
                    *actual as u64,
                    "; a state plan requires at least one slot",
                )
            },
            ClientPlanError::StateSlotLimitExceeded { limit } => {
                with_number("client-plan state slot count exceeds the limit ", *limit as u64)
            },
            ClientPlanError::DuplicateStateSlotId(id) => {
                with_identity("duplicate client-plan state slot identity ", id.0)
            },
            ClientPlanError::InvalidCapabilityCount { actual } => {
                with_number_then(
                    "invalid client-plan capability count ",
                    *actual as u64,
                    "; a capability plan requires at least one requirement",
                )
            },
            ClientPlanError::CapabilityLimitExceeded { limit } => {
                with_number("client-plan capability count exceeds the limit ", *limit as u64)
            },
            ClientPlanError::DuplicateCapabilityName(name) => {
                with_text("duplicate client-plan capability requirement ", name.as_str())
            },
            ClientPlanError::EmptyCapabilityName => "client-plan capability name must not be empty".to_owned(),
            ClientPlanError::EmptyCapabilityArgument => {
                "client-plan capability argument must not be empty".to_owned()
            },
            ClientPlanError::CapabilityNameTooLong { length, limit } => {
                with_numbers(
                    "client-plan capability name length ",
                    *length as u64,
                    " exceeds the limit ",
                    *limit as u64,
                )
            },
            ClientPlanError::CapabilityArgumentTooLong { length, limit } => {
                with_numbers(
                    "client-plan capability argument length ",
                    *length as u64,
                    " exceeds the limit ",
                    *limit as u64,
                )
            },
            ClientPlanError::InvalidCapabilityNameUtf8 => "client-plan capability name is not valid UTF-8".to_owned(),
            ClientPlanError::InvalidCapabilityArgumentUtf8 => {
                "client-plan capability argument is not valid UTF-8".to_owned()
            },
            ClientPlanError::InvalidCapabilityArgumentTag(tag) => {
                with_number("invalid client-plan capability argument tag ", *tag as u64)
            },
            ClientPlanError::UnsupportedInnerVersion(version) => {
                with_number("unsupported inner client-plan version ", *version as u64)
            },
            ClientPlanError::InnerVersionMismatch { declared, actual } => {
                with_numbers(
                    "declared inner client-plan version ",
                    *declared as u64,
                    " does not match payload version ",
                    *actual as u64,
                )
            },
            ClientPlanError::ArtifactSizeLimit { size, maximum } => {
                with_numbers("orna.client-plan artefact size ", *size as u64, " exceeds the limit ", *maximum as u64)
            },
            ClientPlanError::Truncated => "truncated orna.client-plan artefact".to_owned(),
            ClientPlanError::TrailingBytes => "trailing bytes after orna.client-plan artefact".to_owned(),
        }
    }
}

impl From<DecodeError> for ClientPlanError {
    fn from(error: DecodeError) -> (mapped: ClientPlanError) {
        match error {
            DecodeError::Truncated => ClientPlanError::Truncated,
            DecodeError::TrailingBytes => ClientPlanError::TrailingBytes,
        }
    }
}

impl vstd::std_specs::convert::FromSpecImpl<DecodeError> for ClientPlanError {
    open spec fn obeys_from_spec() -> bool {
        true
    }

    open spec fn from_spec(error: DecodeError) -> ClientPlanError {
        match error {
            DecodeError::Truncated => ClientPlanError::Truncated,
            DecodeError::TrailingBytes => ClientPlanError::TrailingBytes,
        }
    }
}

/// The first of two checks that fails, if one does.
pub open spec fn first_failure(first: Result<(), ClientPlanError>, second: Result<(), ClientPlanError>) -> Result<
    (),
    ClientPlanError,
> {
    match first {
        Err(error) => Err(error),
        Ok(()) => second,
    }
}

/// The check that fails with an error where there is one.
pub open spec fn refused(error: Option<ClientPlanError>) -> Result<(), ClientPlanError> {
    match error {
        Some(error) => Err(error),
        None => Ok(()),
    }
}

} // verus!
