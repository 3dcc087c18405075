//! What the messages of refused artefacts name.

use vstd::prelude::*;

use crate::client_plan::ClientPlanError;
use crate::server_mutation_plan::error::truth_text;
use crate::server_mutation_plan::ServerMutationPlanError;
use crate::text::{decimal, identity_text};

verus! {

/// Tells whether a text holds parts one behind the other.
pub open spec fn names_in_order(text: Seq<char>, parts: Seq<Seq<char>>) -> bool
    decreases parts.len(),
{
    parts.len() == 0 || exists|start: int|
        #![trigger text.skip(start)]
        0 <= start && start + parts[0].len() <= text.len() && text.skip(start).take(parts[0].len() as int) == parts[0]
            && names_in_order(text.skip(start).skip(parts[0].len() as int), parts.drop_first())
}

/// A part in front of a text that holds others.
proof fn lemma_part(before: Seq<char>, part: Seq<char>, rest: Seq<char>, parts: Seq<Seq<char>>)
    requires
        names_in_order(rest, parts),
    ensures
        names_in_order(before + (part + rest), seq![part] + parts),
{
    let text = before + (part + rest);
    let all = seq![part] + parts;
    let start = before.len() as int;
    assert(all.drop_first() =~= parts);
    assert(text.skip(start) =~= part + rest);
    assert(text.skip(start).take(part.len() as int) =~= part);
    assert(text.skip(start).skip(part.len() as int) =~= rest);
}

/// A message that names one thing.
proof fn lemma_one(before: Seq<char>, first: Seq<char>, after: Seq<char>)
    ensures
        names_in_order(before + first, seq![first]),
        names_in_order(before + first + after, seq![first]),
{
    let none = Seq::<Seq<char>>::empty();
    lemma_part(before, first, Seq::empty(), none);
    lemma_part(before, first, after, none);
    assert(seq![first] + none =~= seq![first]);
    assert(before + (first + Seq::empty()) =~= before + first);
    assert(before + (first + after) =~= before + first + after);
}

/// A message that names two things.
proof fn lemma_two(before: Seq<char>, first: Seq<char>, between: Seq<char>, second: Seq<char>, after: Seq<char>)
    ensures
        names_in_order(before + first + between + second, seq![first, second]),
        names_in_order(before + first + between + second + after, seq![first, second]),
{
    lemma_one(between, second, after);
    lemma_part(before, first, between + second, seq![second]);
    lemma_part(before, first, between + second + after, seq![second]);
    assert(seq![first] + seq![second] =~= seq![first, second]);
    assert(before + (first + (between + second)) =~= before + first + between + second);
    assert(before + (first + (between + second + after)) =~= before + first + between + second + after);
}

/// A message that names three things.
proof fn lemma_three(
    before: Seq<char>,
    first: Seq<char>,
    between: Seq<char>,
    second: Seq<char>,
    further: Seq<char>,
    third: Seq<char>,
    after: Seq<char>,
)
    ensures
        names_in_order(before + first + between + second + further + third, seq![first, second, third]),
{
    lemma_two(between, second, further, third, after);
    lemma_part(before, first, between + second + further + third, seq![second, third]);
    assert(seq![first] + seq![second, third] =~= seq![first, second, third]);
    assert(before + (first + (between + second + further + third)) =~= before + first + between + second + further
        + third);
}

/// A message that names four things.
proof fn lemma_four(
    before: Seq<char>,
    first: Seq<char>,
    between: Seq<char>,
    second: Seq<char>,
    further: Seq<char>,
    third: Seq<char>,
    last: Seq<char>,
    fourth: Seq<char>,
    after: Seq<char>,
)
    ensures
        names_in_order(
            before + first + between + second + further + third + last + fourth,
            seq![first, second, third, fourth],
        ),
{
    lemma_three(between, second, further, third, last, fourth, after);
    lemma_part(before, first, between + second + further + third + last + fourth, seq![second, third, fourth]);
    assert(seq![first] + seq![second, third, fourth] =~= seq![first, second, third, fourth]);
    assert(before + (first + (between + second + further + third + last + fourth)) =~= before + first + between + second
        + further + third + last + fourth);
}

/// What a message of a refused client plan names, in the order in which it does.
pub open spec fn client_plan_subjects(error: ClientPlanError) -> Seq<Seq<char>> {
    match error {
        ClientPlanError::UnsupportedVersion(version) => seq![decimal(version as nat)],
        ClientPlanError::InvalidOperation(tag) => seq![decimal(tag as nat)],
        ClientPlanError::InvalidBoolean(value) => seq![decimal(value as nat)],
        ClientPlanError::InvalidOpaquePayloadLength { actual } => seq![decimal(actual as nat)],
        ClientPlanError::InvalidExpressionNode(tag) => seq![decimal(tag as nat)],
        ClientPlanError::InvalidControlFlowUnaryOperator(tag) => seq![decimal(tag as nat)],
        ClientPlanError::InvalidControlFlowBinaryOperator(tag) => seq![decimal(tag as nat)],
        ClientPlanError::InvalidControlFlowStatement(tag) => seq![decimal(tag as nat)],
        ClientPlanError::InvalidControlFlowReturnTag(tag) => seq![decimal(tag as nat)],
        ClientPlanError::InvalidControlFlowElseTag(tag) => seq![decimal(tag as nat)],
        ClientPlanError::InvalidControlFlowBranchCount { actual } => seq![decimal(actual as nat)],
        ClientPlanError::ControlFlowLocalLimitExceeded { limit } => seq![decimal(limit as nat)],
        ClientPlanError::ControlFlowStatementLimitExceeded { limit } => seq![decimal(limit as nat)],
        ClientPlanError::ControlFlowBranchLimitExceeded { limit } => seq![decimal(limit as nat)],
        ClientPlanError::DuplicateControlFlowLocal(local) => seq![identity_text(local.0)],
        ClientPlanError::UnknownControlFlowLocal(local) => seq![identity_text(local.0)],
        ClientPlanError::ControlFlowLocalReadBeforeLet(local) => seq![identity_text(local.0)],
        ClientPlanError::ControlFlowAssignmentBeforeLet(local) => seq![identity_text(local.0)],
        ClientPlanError::DuplicateControlFlowLet(local) => seq![identity_text(local.0)],
        ClientPlanError::MissingControlFlowLet(local) => seq![identity_text(local.0)],
        ClientPlanError::ControlFlowLocalKindMismatch(local) => seq![identity_text(local.0)],
        ClientPlanError::InvalidInspectOperation(tag) => seq![decimal(tag as nat)],
        ClientPlanError::InvalidInspectProjection(tag) => seq![decimal(tag as nat)],
        ClientPlanError::ExpressionCollectionExceeded { limit } => seq![decimal(limit as nat)],
        ClientPlanError::InvalidActionDomain(tag) => seq![decimal(tag as nat)],
        ClientPlanError::ActionArgumentLimitExceeded { limit } => seq![decimal(limit as nat)],
        ClientPlanError::DuplicateActionArgument(parameter) => seq![identity_text(parameter.0)],
        ClientPlanError::InvalidResourceKind(tag) => seq![decimal(tag as nat)],
        ClientPlanError::InvalidResourceOperationCount { actual } => seq![decimal(actual as nat)],
        ClientPlanError::ResourceOperationLimitExceeded { limit } => seq![decimal(limit as nat)],
        ClientPlanError::ResourceArgumentLimitExceeded { limit } => seq![decimal(limit as nat)],
        ClientPlanError::InvalidLocalKind(tag) => seq![decimal(tag as nat)],
        ClientPlanError::InvalidProceduralStatement(tag) => seq![decimal(tag as nat)],
        ClientPlanError::ProceduralLocalLimitExceeded { limit } => seq![decimal(limit as nat)],
        ClientPlanError::ProceduralStatementLimitExceeded { limit } => seq![decimal(limit as nat)],
        ClientPlanError::DuplicateProceduralLocal(local) => seq![identity_text(local.0)],
        ClientPlanError::UnknownProceduralLocal(local) => seq![identity_text(local.0)],
        ClientPlanError::ProceduralLocalReadBeforeLet(local) => seq![identity_text(local.0)],
        ClientPlanError::ProceduralLocalKindMismatch(local) => seq![identity_text(local.0)],
        ClientPlanError::ProceduralLocalTypeMismatch { local, expected, actual } => seq![
            identity_text(local.0),
            identity_text(expected.0),
            identity_text(actual.0),
        ],
        ClientPlanError::UnawaitedResourceLocal(local) => seq![identity_text(local.0)],
        ClientPlanError::DuplicateProceduralLet(local) => seq![identity_text(local.0)],
        ClientPlanError::ProceduralAssignmentBeforeLet(local) => seq![identity_text(local.0)],
        ClientPlanError::MissingProceduralLet(local) => seq![identity_text(local.0)],
        ClientPlanError::InvalidAwaitOperand(local) => seq![identity_text(local.0)],
        ClientPlanError::DuplicateResourceArgument(parameter) => seq![identity_text(parameter.0)],
        ClientPlanError::InvalidStateScope(tag) => seq![decimal(tag as nat)],
        ClientPlanError::InvalidStateDefaultTag(tag) => seq![decimal(tag as nat)],
        ClientPlanError::InvalidStateSlotCount { actual } => seq![decimal(actual as nat)],
        ClientPlanError::StateSlotLimitExceeded { limit } => seq![decimal(limit as nat)],
        ClientPlanError::DuplicateStateSlotId(id) => seq![identity_text(id.0)],
        ClientPlanError::InvalidCapabilityCount { actual } => seq![decimal(actual as nat)],
        ClientPlanError::CapabilityLimitExceeded { limit } => seq![decimal(limit as nat)],
        ClientPlanError::DuplicateCapabilityName(name) => seq![name@],
        ClientPlanError::CapabilityNameTooLong { length, limit } => seq![
            decimal(length as nat),
            decimal(limit as nat),
        ],
        ClientPlanError::CapabilityArgumentTooLong { length, limit } => seq![
            decimal(length as nat),
            decimal(limit as nat),
        ],
        ClientPlanError::InvalidCapabilityArgumentTag(tag) => seq![decimal(tag as nat)],
        ClientPlanError::UnsupportedInnerVersion(version) => seq![decimal(version as nat)],
        ClientPlanError::InnerVersionMismatch { declared, actual } => seq![
            decimal(declared as nat),
            decimal(actual as nat),
        ],
        ClientPlanError::ArtifactSizeLimit { size, maximum } => seq![decimal(size as nat), decimal(maximum as nat)],
        _ => Seq::empty(),
    }
}

/// The message of a refused client plan names what it carries, in order.
#[verifier::rlimit(60)]
#[verifier::spinoff_prover]
pub proof fn law_client_plan_messages(error: ClientPlanError, message: String)
    requires
        call_ensures(ClientPlanError::message, (&error,), message),
    ensures
        names_in_order(message@, client_plan_subjects(error)),
{
    match error {
        ClientPlanError::UnsupportedVersion(version) => {
            lemma_one("unsupported orna.client-plan artefact version "@, decimal(version as nat), Seq::empty());
        },
        ClientPlanError::InvalidOperation(tag) => {
            lemma_one("invalid client-plan operation tag "@, decimal(tag as nat), Seq::empty());
        },
        ClientPlanError::InvalidBoolean(value) => {
            lemma_one("invalid client-plan Boolean byte "@, decimal(value as nat), Seq::empty());
        },
        ClientPlanError::InvalidOpaquePayloadLength { actual } => {
            lemma_one("invalid client-plan opaque payload length "@, decimal(actual as nat), Seq::empty());
        },
        ClientPlanError::InvalidExpressionNode(tag) => {
            lemma_one("invalid client-plan expression node tag "@, decimal(tag as nat), Seq::empty());
        },
        ClientPlanError::InvalidControlFlowUnaryOperator(tag) => {
            lemma_one("invalid client-plan control-flow unary operator tag "@, decimal(tag as nat), Seq::empty());
        },
        ClientPlanError::InvalidControlFlowBinaryOperator(tag) => {
            lemma_one("invalid client-plan control-flow binary operator tag "@, decimal(tag as nat), Seq::empty());
        },
        ClientPlanError::InvalidControlFlowStatement(tag) => {
            lemma_one("invalid client-plan control-flow statement tag "@, decimal(tag as nat), Seq::empty());
        },
        ClientPlanError::InvalidControlFlowReturnTag(tag) => {
            lemma_one("invalid client-plan control-flow return tag "@, decimal(tag as nat), Seq::empty());
        },
        ClientPlanError::InvalidControlFlowElseTag(tag) => {
            lemma_one("invalid client-plan control-flow else-body tag "@, decimal(tag as nat), Seq::empty());
        },
        ClientPlanError::InvalidControlFlowBranchCount { actual } => {
            lemma_one(
                "invalid client-plan control-flow branch count "@,
                decimal(actual as nat),
                "; an IF requires at least one branch"@,
            );
        },
        ClientPlanError::ControlFlowLocalLimitExceeded { limit } => {
            lemma_one(
                "client-plan control-flow local count exceeds the limit "@,
                decimal(limit as nat),
                Seq::empty(),
            );
        },
        ClientPlanError::ControlFlowStatementLimitExceeded { limit } => {
            lemma_one(
                "client-plan control-flow statement count exceeds the limit "@,
                decimal(limit as nat),
                Seq::empty(),
            );
        },
        ClientPlanError::ControlFlowBranchLimitExceeded { limit } => {
            lemma_one(
                "client-plan control-flow branch count exceeds the limit "@,
                decimal(limit as nat),
                Seq::empty(),
            );
        },
        ClientPlanError::DuplicateControlFlowLocal(local) => {
            lemma_one("duplicate client-plan control-flow local "@, identity_text(local.0), Seq::empty());
        },
        ClientPlanError::UnknownControlFlowLocal(local) => {
            lemma_one("unknown client-plan control-flow local "@, identity_text(local.0), Seq::empty());
        },
        ClientPlanError::ControlFlowLocalReadBeforeLet(local) => {
            lemma_one("client-plan control-flow local "@, identity_text(local.0), " is read before LET"@);
        },
        ClientPlanError::ControlFlowAssignmentBeforeLet(local) => {
            lemma_one("client-plan control-flow assignment targets local "@, identity_text(local.0), " before LET"@);
        },
        ClientPlanError::DuplicateControlFlowLet(local) => {
            lemma_one("duplicate LET for client-plan control-flow local "@, identity_text(local.0), Seq::empty());
        },
        ClientPlanError::MissingControlFlowLet(local) => {
            lemma_one("client-plan control-flow local "@, identity_text(local.0), " has no LET statement"@);
        },
        ClientPlanError::ControlFlowLocalKindMismatch(local) => {
            lemma_one(
                "client-plan control-flow local "@,
                identity_text(local.0),
                " has an incompatible initializer kind"@,
            );
        },
        ClientPlanError::InvalidInspectOperation(tag) => {
            lemma_one("invalid client-plan Inspector operation tag "@, decimal(tag as nat), Seq::empty());
        },
        ClientPlanError::InvalidInspectProjection(tag) => {
            lemma_one("invalid client-plan Inspector projection tag "@, decimal(tag as nat), Seq::empty());
        },
        ClientPlanError::ExpressionCollectionExceeded { limit } => {
            lemma_one("client-plan expression collection exceeds the limit "@, decimal(limit as nat), Seq::empty());
        },
        ClientPlanError::InvalidActionDomain(tag) => {
            lemma_one("invalid client-plan action domain tag "@, decimal(tag as nat), Seq::empty());
        },
        ClientPlanError::ActionArgumentLimitExceeded { limit } => {
            lemma_one("client-plan action argument count exceeds the limit "@, decimal(limit as nat), Seq::empty());
        },
        ClientPlanError::DuplicateActionArgument(parameter) => {
            lemma_one("duplicate client-plan action argument "@, identity_text(parameter.0), Seq::empty());
        },
        ClientPlanError::InvalidResourceKind(tag) => {
            lemma_one("invalid client-plan resource kind tag "@, decimal(tag as nat), Seq::empty());
        },
        ClientPlanError::InvalidResourceOperationCount { actual } => {
            lemma_one(
                "invalid client-plan resource operation count "@,
                decimal(actual as nat),
                "; a resource plan requires at least one operation"@,
            );
        },
        ClientPlanError::ResourceOperationLimitExceeded { limit } => {
            lemma_one(
                "client-plan resource operation count exceeds the limit "@,
                decimal(limit as nat),
                Seq::empty(),
            );
        },
        ClientPlanError::ResourceArgumentLimitExceeded { limit } => {
            lemma_one("client-plan resource argument count exceeds the limit "@, decimal(limit as nat), Seq::empty());
        },
        ClientPlanError::InvalidLocalKind(tag) => {
            lemma_one("invalid client-plan procedural local kind tag "@, decimal(tag as nat), Seq::empty());
        },
        ClientPlanError::InvalidProceduralStatement(tag) => {
            lemma_one("invalid client-plan procedural statement tag "@, decimal(tag as nat), Seq::empty());
        },
        ClientPlanError::ProceduralLocalLimitExceeded { limit } => {
            lemma_one("client-plan procedural local count exceeds the limit "@, decimal(limit as nat), Seq::empty());
        },
        ClientPlanError::ProceduralStatementLimitExceeded { limit } => {
            lemma_one(
                "client-plan procedural statement count exceeds the limit "@,
                decimal(limit as nat),
                Seq::empty(),
            );
        },
        ClientPlanError::DuplicateProceduralLocal(local) => {
            lemma_one("duplicate client-plan procedural local "@, identity_text(local.0), Seq::empty());
        },
        ClientPlanError::UnknownProceduralLocal(local) => {
            lemma_one("unknown client-plan procedural local "@, identity_text(local.0), Seq::empty());
        },
        ClientPlanError::ProceduralLocalReadBeforeLet(local) => {
            lemma_one("client-plan procedural local "@, identity_text(local.0), " is read before LET"@);
        },
        ClientPlanError::ProceduralLocalKindMismatch(local) => {
            lemma_one(
                "client-plan procedural local "@,
                identity_text(local.0),
                " has an incompatible initializer kind"@,
            );
        },
        ClientPlanError::ProceduralLocalTypeMismatch { local, expected, actual } => {
            lemma_three(
                "client-plan procedural local "@,
                identity_text(local.0),
                " expects resource type "@,
                identity_text(expected.0),
                ", got "@,
                identity_text(actual.0),
                Seq::empty(),
            );
        },
        ClientPlanError::UnawaitedResourceLocal(local) => {
            lemma_one(
                "client-plan resource local "@,
                identity_text(local.0),
                " must be awaited before use as a value"@,
            );
        },
        ClientPlanError::DuplicateProceduralLet(local) => {
            lemma_one("duplicate LET for client-plan procedural local "@, identity_text(local.0), Seq::empty());
        },
        ClientPlanError::ProceduralAssignmentBeforeLet(local) => {
            lemma_one("client-plan procedural assignment targets local "@, identity_text(local.0), " before LET"@);
        },
        ClientPlanError::MissingProceduralLet(local) => {
            lemma_one("client-plan procedural local "@, identity_text(local.0), " has no LET statement"@);
        },
        ClientPlanError::InvalidAwaitOperand(local) => {
            lemma_one("client-plan AWAIT operand local "@, identity_text(local.0), " is not a resource"@);
        },
        ClientPlanError::DuplicateResourceArgument(parameter) => {
            lemma_one("duplicate client-plan resource argument "@, identity_text(parameter.0), Seq::empty());
        },
        ClientPlanError::InvalidStateScope(tag) => {
            lemma_one("invalid client-plan state scope tag "@, decimal(tag as nat), Seq::empty());
        },
        ClientPlanError::InvalidStateDefaultTag(tag) => {
            lemma_one("invalid client-plan state default tag "@, decimal(tag as nat), Seq::empty());
        },
        ClientPlanError::InvalidStateSlotCount { actual } => {
            lemma_one(
                "invalid client-plan state slot count "@,
                decimal(actual as nat),
                "; a state plan requires at least one slot"@,
            );
        },
        ClientPlanError::StateSlotLimitExceeded { limit } => {
            lemma_one("client-plan state slot count exceeds the limit "@, decimal(limit as nat), Seq::empty());
        },
        ClientPlanError::DuplicateStateSlotId(id) => {
            lemma_one("duplicate client-plan state slot identity "@, identity_text(id.0), Seq::empty());
        },
        ClientPlanError::InvalidCapabilityCount { actual } => {
            lemma_one(
                "invalid client-plan capability count "@,
                decimal(actual as nat),
                "; a capability plan requires at least one requirement"@,
            );
        },
        ClientPlanError::CapabilityLimitExceeded { limit } => {
            lemma_one("client-plan capability count exceeds the limit "@, decimal(limit as nat), Seq::empty());
        },
        ClientPlanError::DuplicateCapabilityName(name) => {
            lemma_one("duplicate client-plan capability requirement "@, name@, Seq::empty());
        },
        ClientPlanError::CapabilityNameTooLong { length, limit } => {
            lemma_two(
                "client-plan capability name length "@,
                decimal(length as nat),
                " exceeds the limit "@,
                decimal(limit as nat),
                Seq::empty(),
            );
        },
        ClientPlanError::CapabilityArgumentTooLong { length, limit } => {
            lemma_two(
                "client-plan capability argument length "@,
                decimal(length as nat),
                " exceeds the limit "@,
                decimal(limit as nat),
                Seq::empty(),
            );
        },
        ClientPlanError::InvalidCapabilityArgumentTag(tag) => {
            lemma_one("invalid client-plan capability argument tag "@, decimal(tag as nat), Seq::empty());
        },
        ClientPlanError::UnsupportedInnerVersion(version) => {
            lemma_one("unsupported inner client-plan version "@, decimal(version as nat), Seq::empty());
        },
        ClientPlanError::InnerVersionMismatch { declared, actual } => {
            lemma_two(
                "declared inner client-plan version "@,
                decimal(declared as nat),
                " does not match payload version "@,
                decimal(actual as nat),
                Seq::empty(),
            );
        },
        ClientPlanError::ArtifactSizeLimit { size, maximum } => {
            lemma_two(
                "orna.client-plan artefact size "@,
                decimal(size as nat),
                " exceeds the limit "@,
                decimal(maximum as nat),
                Seq::empty(),
            );
        },
        _ => {},
    }
}

/// What a message of a refused mutation plan names, in the order in which it does.
pub open spec fn mutation_plan_subjects(error: ServerMutationPlanError) -> Seq<Seq<char>> {
    match error {
        ServerMutationPlanError::UnsupportedVersion(version) => seq![decimal(version as nat)],
        ServerMutationPlanError::NonCanonicalFormatVersion { expected, actual } => seq![
            decimal(actual as nat),
            decimal(expected as nat),
        ],
        ServerMutationPlanError::InvalidEnumTag { kind, tag } => seq![kind@, decimal(tag as nat)],
        ServerMutationPlanError::InvalidBoolean { context, value } => seq![context@, decimal(value as nat)],
        ServerMutationPlanError::CollectionLimit { kind, count, maximum } => seq![
            kind@,
            decimal(count as nat),
            decimal(maximum as nat),
        ],
        ServerMutationPlanError::ArtifactSizeLimit { size, maximum } => seq![
            decimal(size as nat),
            decimal(maximum as nat),
        ],
        ServerMutationPlanError::RecordFieldOwnerMismatch { position, expected, actual } => seq![
            decimal(position as nat),
            identity_text(actual.0),
            identity_text(expected.0),
        ],
        ServerMutationPlanError::DuplicateRecordField { first, duplicate, owner, field } => seq![
            decimal(duplicate as nat),
            identity_text(owner.0),
            identity_text(field.0),
            decimal(first as nat),
        ],
        ServerMutationPlanError::AssignmentOwnerMismatch { assignment, target, owner } => seq![
            decimal(assignment as nat),
            identity_text(owner.0),
            identity_text(target.0),
        ],
        ServerMutationPlanError::DuplicateFieldAssignment { first, duplicate, owner, field } => seq![
            decimal(duplicate as nat),
            identity_text(owner.0),
            identity_text(field.0),
            decimal(first as nat),
        ],
        ServerMutationPlanError::MixedParameterOwners { first, assignment, expected, actual } => seq![
            decimal(assignment as nat),
            identity_text(actual.0),
            decimal(first as nat),
            identity_text(expected.0),
        ],
        ServerMutationPlanError::SelectorParameterOwnerMismatch { assignment, selector_owner, assignment_owner } => seq![
            decimal(assignment as nat),
            identity_text(assignment_owner.0),
            identity_text(selector_owner.0),
        ],
        ServerMutationPlanError::UnsupportedValueType { resolved_type } => seq![resolved_type.text()],
        ServerMutationPlanError::ExpressionTypeMismatch { expression_kind, expected, actual } => seq![
            expression_kind@,
            expected.text(),
            actual.text(),
        ],
        ServerMutationPlanError::ExpressionNullabilityMismatch { expression_kind, expected, actual } => seq![
            expression_kind@,
            truth_text(expected),
            truth_text(actual),
        ],
        ServerMutationPlanError::ReturnedObjectMismatch { target, returned } => seq![
            identity_text(returned.0),
            identity_text(target.0),
        ],
        _ => Seq::empty(),
    }
}

/// The message of a refused mutation plan names what it carries, in order.
#[verifier::rlimit(60)]
#[verifier::spinoff_prover]
pub proof fn law_mutation_plan_messages(error: ServerMutationPlanError, message: String)
    requires
        call_ensures(ServerMutationPlanError::message, (&error,), message),
    ensures
        names_in_order(message@, mutation_plan_subjects(error)),
{
    match error {
        ServerMutationPlanError::UnsupportedVersion(version) => {
            lemma_one(
                "unsupported orna.server-mutation-plan artifact version "@,
                decimal(version as nat),
                Seq::empty(),
            );
        },
        ServerMutationPlanError::NonCanonicalFormatVersion { expected, actual } => {
            lemma_two(
                "server mutation plan version "@,
                decimal(actual as nat),
                " is not canonical for content requiring version "@,
                decimal(expected as nat),
                Seq::empty(),
            );
        },
        ServerMutationPlanError::InvalidEnumTag { kind, tag } => {
            lemma_two("invalid "@, kind@, " tag "@, decimal(tag as nat), Seq::empty());
        },
        ServerMutationPlanError::InvalidBoolean { context, value } => {
            lemma_two("invalid "@, context@, " boolean byte "@, decimal(value as nat), Seq::empty());
        },
        ServerMutationPlanError::CollectionLimit { kind, count, maximum } => {
            lemma_three(
                Seq::<char>::empty(),
                kind@,
                " count "@,
                decimal(count as nat),
                " exceeds the limit "@,
                decimal(maximum as nat),
                Seq::empty(),
            );
            assert(Seq::<char>::empty() + kind@ =~= kind@);
        },
        ServerMutationPlanError::ArtifactSizeLimit { size, maximum } => {
            lemma_two(
                "server mutation plan artifact size "@,
                decimal(size as nat),
                " exceeds the limit "@,
                decimal(maximum as nat),
                Seq::empty(),
            );
        },
        ServerMutationPlanError::RecordFieldOwnerMismatch { position, expected, actual } => {
            lemma_three(
                "record field "@,
                decimal(position as nat),
                " owner "@,
                identity_text(actual.0),
                " differs from record type "@,
                identity_text(expected.0),
                Seq::empty(),
            );
        },
        ServerMutationPlanError::DuplicateRecordField { first, duplicate, owner, field } => {
            lemma_four(
                "record field "@,
                decimal(duplicate as nat),
                " duplicates owner-qualified field "@,
                identity_text(owner.0),
                "."@,
                identity_text(field.0),
                " from field "@,
                decimal(first as nat),
                Seq::empty(),
            );
        },
        ServerMutationPlanError::AssignmentOwnerMismatch { assignment, target, owner } => {
            lemma_three(
                "assignment "@,
                decimal(assignment as nat),
                " owner "@,
                identity_text(owner.0),
                " differs from mutation target "@,
                identity_text(target.0),
                Seq::empty(),
            );
        },
        ServerMutationPlanError::DuplicateFieldAssignment { first, duplicate, owner, field } => {
            lemma_four(
                "assignment "@,
                decimal(duplicate as nat),
                " duplicates owner-qualified field "@,
                identity_text(owner.0),
                "."@,
                identity_text(field.0),
                " from assignment "@,
                decimal(first as nat),
                Seq::empty(),
            );
        },
        ServerMutationPlanError::MixedParameterOwners { first, assignment, expected, actual } => {
            lemma_four(
                "assignment "@,
                decimal(assignment as nat),
                " parameter owner "@,
                identity_text(actual.0),
                " differs from assignment "@,
                decimal(first as nat),
                " owner "@,
                identity_text(expected.0),
                Seq::empty(),
            );
        },
        ServerMutationPlanError::SelectorParameterOwnerMismatch { assignment, selector_owner, assignment_owner } => {
            lemma_three(
                "assignment "@,
                decimal(assignment as nat),
                " parameter owner "@,
                identity_text(assignment_owner.0),
                " differs from selector owner "@,
                identity_text(selector_owner.0),
                Seq::empty(),
            );
        },
        ServerMutationPlanError::UnsupportedValueType { resolved_type } => {
            lemma_one("unsupported mutation value type "@, resolved_type.text(), Seq::empty());
        },
        ServerMutationPlanError::ExpressionTypeMismatch { expression_kind, expected, actual } => {
            lemma_three(
                Seq::<char>::empty(),
                expression_kind@,
                " expression requires type "@,
                expected.text(),
                ", found "@,
                actual.text(),
                Seq::empty(),
            );
            assert(Seq::<char>::empty() + expression_kind@ =~= expression_kind@);
        },
        ServerMutationPlanError::ExpressionNullabilityMismatch { expression_kind, expected, actual } => {
            lemma_three(
                Seq::<char>::empty(),
                expression_kind@,
                " expression requires nullable="@,
                truth_text(expected),
                ", found nullable="@,
                truth_text(actual),
                Seq::empty(),
            );
            assert(Seq::<char>::empty() + expression_kind@ =~= expression_kind@);
        },
        ServerMutationPlanError::ReturnedObjectMismatch { target, returned } => {
            lemma_two(
                "returned object "@,
                identity_text(returned.0),
                " differs from mutation target "@,
                identity_text(target.0),
                Seq::empty(),
            );
        },
        _ => {},
    }
}

} // verus!
