//! Artefacts end where their content ends.
//!
//! Of an artefact that decodes, every strict prefix is refused as truncated, and
//! anything behind it is refused as trailing bytes.

use vstd::prelude::*;

use crate::artifact_codec::{group_reads_extend, read_identity, read_u32, read_u8};
use crate::client_plan::action::{decoded_action_plan, parsed_placed_arguments};
use crate::client_plan::boolean::decoded_boolean_plan;
use crate::client_plan::capability::{
    decoded_capability_plan, parsed_inner_plan, parsed_requirement, parsed_requirement_text, parsed_requirements,
    CapabilityPlan, CapabilityRefusal, Requirement, RequirementText,
};
use crate::client_plan::control_flow::{decoded_flow_plan, parsed_flow_locals, FlowBranch, FlowPlan, FlowStatement};
use crate::client_plan::control_flow_codec::{
    parsed_block, parsed_branches, parsed_flow_statement, parsed_flow_statements, parsed_if, parsed_return, parsed_tree,
    FlowTally, BLOCK_LEVELS,
};
use crate::client_plan::error::ClientPlanError;
use crate::client_plan::expression::{ActionOperation, Expression};
use crate::client_plan::expression_plan::{decoded_expression_plan, expression_operation};
use crate::client_plan::grammar::{Grammar, Tally};
use crate::client_plan::header::{after_header, after_operation, declared_version, size_error};
use crate::client_plan::local::LocalRule;
use crate::client_plan::node_codec::{parsed_action_head, parsed_node};
use crate::client_plan::node_prefix::{
    extends, lemma_action_head_extends, lemma_header_extends, lemma_locals_extend, lemma_node_extends,
    lemma_operation_extends, lemma_version_extends, tree_extends,
};
use crate::client_plan::opaque::{decoded_opaque_plan, OpaqueValue};
use crate::client_plan::placement::EXPRESSION_LEVELS;
use crate::client_plan::procedural::{
    decoded_procedural_plan, parsed_declarations, parsed_procedural_payload, parsed_statement, parsed_statement_list,
    parsed_statements, ProceduralPlan, Statement,
};
use crate::client_plan::resource::decoded_resource_plan;
use crate::client_plan::state::{
    decoded_state_plan, parsed_default, parsed_slot, parsed_slots, parsed_state_tree, Slot, StatePlan,
};
use crate::client_plan::{
    ACTION_FORMAT_VERSION, CAPABILITY_FORMAT_VERSION, CONTROL_FLOW_FORMAT_VERSION, CONTROL_FLOW_STATEMENT_ASSIGNMENT,
    CONTROL_FLOW_STATEMENT_IF, CONTROL_FLOW_STATEMENT_LET, CONTROL_FLOW_STATEMENT_RETURN,
    CONTROL_FLOW_STATEMENT_WHILE, ClientLocal, EXPRESSION_FORMAT_VERSION, FORMAT_VERSION, INSPECT_FORMAT_VERSION,
    MAX_ARTIFACT_BYTES, OPAQUE_FORMAT_VERSION, PROCEDURAL_FORMAT_VERSION, RESOURCE_FORMAT_VERSION,
    RETURN_ACTION_OPERATION, RETURN_BOOLEAN_OPERATION, RETURN_CAPABILITY_OPERATION, RETURN_CONTROL_FLOW_OPERATION,
    RETURN_OPAQUE_OPERATION, RETURN_PROCEDURAL_OPERATION, RETURN_RESOURCE_OPERATION, RETURN_STATE_OPERATION,
    STATE_FORMAT_VERSION,
};
use crate::identity::ParameterId;

verus! {

broadcast use group_reads_extend;

/// Tells whether an artefact that decodes ends where its content ends: what is
/// decoded from the front of a longer input fails as truncated, and what is
/// decoded from the longer input fails for its trailing bytes.
pub open spec fn ends_exactly<T>(front: Result<T, ClientPlanError>, longer: Result<T, ClientPlanError>) -> bool {
    &&& front is Ok ==> longer == Err::<T, ClientPlanError>(ClientPlanError::TrailingBytes)
    &&& longer is Ok ==> front == Err::<T, ClientPlanError>(ClientPlanError::Truncated)
}

/// Tells the same of capability plans.
pub open spec fn refused_exactly<T>(front: Result<T, CapabilityRefusal>, longer: Result<T, CapabilityRefusal>) -> bool {
    &&& front is Ok ==> longer == Err::<T, CapabilityRefusal>(
        CapabilityRefusal::Failure(ClientPlanError::TrailingBytes),
    )
    &&& longer is Ok ==> front == Err::<T, CapabilityRefusal>(
        CapabilityRefusal::Failure(ClientPlanError::Truncated),
    )
}

/// A tree of a state plan.
proof fn lemma_state_tree_extends(input: Seq<u8>, more: Seq<u8>)
    ensures
        extends(parsed_state_tree(input), parsed_state_tree(input + more), more),
{
    lemma_node_extends(input, EXPRESSION_LEVELS as nat, Tally::zero(), Grammar::closed_set(), more);
}

/// An initial value.
proof fn lemma_default_extends(input: Seq<u8>, more: Seq<u8>)
    ensures
        extends(parsed_default(input), parsed_default(input + more), more),
{
    if let Some((_, rest)) = read_u8(input) {
        lemma_state_tree_extends(rest, more);
    }
}

/// A state slot.
proof fn lemma_slot_extends(input: Seq<u8>, done: Seq<Slot>, more: Seq<u8>)
    ensures
        extends(parsed_slot(input, done), parsed_slot(input + more, done), more),
{
    if let Some((_, rest)) = read_identity(input) {
        if let Some((_, rest)) = read_identity(rest) {
            if let Some((_, rest)) = read_u8(rest) {
                lemma_default_extends(rest, more);
            }
        }
    }
}

/// State slots.
proof fn lemma_slots_extend(input: Seq<u8>, done: Seq<Slot>, total: nat, more: Seq<u8>)
    ensures
        extends(parsed_slots(input, done, total), parsed_slots(input + more, done, total), more),
    decreases total - done.len(),
{
    if done.len() < total {
        lemma_slot_extends(input, done, more);
        if let Ok((slot, rest)) = parsed_slot(input, done) {
            lemma_slots_extend(rest, done.push(slot), total, more);
        }
    }
}

/// A procedural statement.
proof fn lemma_statement_extends(input: Seq<u8>, locals: Seq<ClientLocal>, tally: Tally, more: Seq<u8>)
    ensures
        tree_extends(parsed_statement(input, locals, tally), parsed_statement(input + more, locals, tally), more),
{
    if let Some((_, rest)) = read_u8(input) {
        if let Some((_, rest)) = read_identity(rest) {
            lemma_node_extends(rest, EXPRESSION_LEVELS as nat, tally, Grammar::procedural_set(), more);
        }
    }
}

/// Procedural statements.
proof fn lemma_statements_extend(
    input: Seq<u8>,
    done: Seq<Statement>,
    total: nat,
    locals: Seq<ClientLocal>,
    tally: Tally,
    more: Seq<u8>,
)
    ensures
        tree_extends(
            parsed_statements(input, done, total, locals, tally),
            parsed_statements(input + more, done, total, locals, tally),
            more,
        ),
    decreases total - done.len(),
{
    if done.len() < total {
        lemma_statement_extends(input, locals, tally, more);
        if let Ok((statement, rest, behind)) = parsed_statement(input, locals, tally) {
            lemma_statements_extend(rest, done.push(statement), total, locals, behind, more);
        }
    }
}

/// What follows the header of a procedural plan.
proof fn lemma_procedural_payload_extends(input: Seq<u8>, more: Seq<u8>)
    ensures
        extends(parsed_procedural_payload(input), parsed_procedural_payload(input + more), more),
{
    if let Some((count, rest)) = read_u32(input) {
        lemma_locals_extend(rest, Seq::empty(), count as nat, LocalRule::Procedural, more);
    }
    assert(extends(parsed_declarations(input), parsed_declarations(input + more), more));
    if let Ok((locals, rest)) = parsed_declarations(input) {
        if let Some((count, statements)) = read_u32(rest) {
            lemma_statements_extend(statements, Seq::empty(), count as nat, locals, Tally::zero(), more);
        }
        assert(tree_extends(parsed_statement_list(rest, locals), parsed_statement_list(rest + more, locals), more));
        if let Ok((_, rest, tally)) = parsed_statement_list(rest, locals) {
            lemma_node_extends(rest, EXPRESSION_LEVELS as nat, tally, Grammar::procedural_set(), more);
        }
    }
}

/// The arguments of an action plan.
proof fn lemma_placed_arguments_extend(
    input: Seq<u8>,
    done: Seq<(ParameterId, Expression)>,
    total: nat,
    tally: Tally,
    more: Seq<u8>,
)
    ensures
        extends(
            parsed_placed_arguments(input, done, total, tally),
            parsed_placed_arguments(input + more, done, total, tally),
            more,
        ),
    decreases total - done.len(),
{
    if done.len() < total {
        if let Some((parameter, rest)) = read_identity(input) {
            lemma_node_extends(rest, EXPRESSION_LEVELS as nat, tally, Grammar::closed_set(), more);
            if let Ok((value, rest, behind)) = parsed_node(
                rest,
                EXPRESSION_LEVELS as nat,
                tally,
                Grammar::closed_set(),
            ) {
                lemma_placed_arguments_extend(rest, done.push((ParameterId(parameter), value)), total, behind, more);
            }
        }
    }
}

/// A tree of a programmable plan.
proof fn lemma_tree_extends(input: Seq<u8>, tally: FlowTally, more: Seq<u8>)
    ensures
        tree_extends(parsed_tree(input, tally), parsed_tree(input + more, tally), more),
{
    lemma_node_extends(input, EXPRESSION_LEVELS as nat, tally.trees, Grammar::programmable_set(), more);
}

/// A block.
proof fn lemma_block_extends(input: Seq<u8>, levels: nat, tally: FlowTally, more: Seq<u8>)
    ensures
        tree_extends(parsed_block(input, levels, tally), parsed_block(input + more, levels, tally), more),
    decreases levels, 0nat, 0nat,
{
    if levels > 0 {
        if let Some((count, rest)) = read_u32(input) {
            lemma_flow_statements_extend(rest, Seq::empty(), count as nat, (levels - 1) as nat, tally, more);
        }
    }
}

/// The statements of a block.
proof fn lemma_flow_statements_extend(
    input: Seq<u8>,
    done: Seq<FlowStatement>,
    total: nat,
    levels: nat,
    tally: FlowTally,
    more: Seq<u8>,
)
    ensures
        tree_extends(
            parsed_flow_statements(input, done, total, levels, tally),
            parsed_flow_statements(input + more, done, total, levels, tally),
            more,
        ),
    decreases levels, 4nat, total - done.len(),
{
    if done.len() < total {
        lemma_flow_statement_extends(input, levels, tally.with_statement(), more);
        if let Ok((statement, rest, behind)) = parsed_flow_statement(input, levels, tally.with_statement()) {
            lemma_flow_statements_extend(rest, done.push(statement), total, levels, behind, more);
        }
    }
}

/// A statement of a block.
proof fn lemma_flow_statement_extends(input: Seq<u8>, levels: nat, tally: FlowTally, more: Seq<u8>)
    ensures
        tree_extends(
            parsed_flow_statement(input, levels, tally),
            parsed_flow_statement(input + more, levels, tally),
            more,
        ),
    decreases levels, 3nat, 0nat,
{
    if let Some((tag, rest)) = read_u8(input) {
        if tag == CONTROL_FLOW_STATEMENT_LET || tag == CONTROL_FLOW_STATEMENT_ASSIGNMENT {
            if let Some((_, rest)) = read_identity(rest) {
                lemma_tree_extends(rest, tally, more);
            }
        } else if tag == CONTROL_FLOW_STATEMENT_RETURN {
            if let Some((_, tree)) = read_u8(rest) {
                lemma_tree_extends(tree, tally, more);
            }
            assert(tree_extends(parsed_return(rest, tally), parsed_return(rest + more, tally), more));
        } else if tag == CONTROL_FLOW_STATEMENT_IF {
            lemma_if_extends(rest, levels, tally, more);
        } else if tag == CONTROL_FLOW_STATEMENT_WHILE {
            lemma_tree_extends(rest, tally, more);
            if let Ok((_, rest, behind)) = parsed_tree(rest, tally) {
                lemma_block_extends(rest, levels, behind, more);
            }
        }
    }
}

/// An `IF`.
proof fn lemma_if_extends(input: Seq<u8>, levels: nat, tally: FlowTally, more: Seq<u8>)
    ensures
        tree_extends(parsed_if(input, levels, tally), parsed_if(input + more, levels, tally), more),
    decreases levels, 2nat, 0nat,
{
    if let Some((count, rest)) = read_u32(input) {
        lemma_branches_extend(rest, Seq::empty(), count as nat, levels, tally, more);
        if let Ok((_, rest, behind)) = parsed_branches(rest, Seq::empty(), count as nat, levels, tally) {
            if let Some((_, rest)) = read_u8(rest) {
                lemma_block_extends(rest, levels, behind, more);
            }
        }
    }
}

/// The branches of an `IF`.
proof fn lemma_branches_extend(
    input: Seq<u8>,
    done: Seq<FlowBranch>,
    total: nat,
    levels: nat,
    tally: FlowTally,
    more: Seq<u8>,
)
    ensures
        tree_extends(
            parsed_branches(input, done, total, levels, tally),
            parsed_branches(input + more, done, total, levels, tally),
            more,
        ),
    decreases levels, 1nat, total - done.len(),
{
    if done.len() < total {
        lemma_tree_extends(input, tally, more);
        if let Ok((condition, rest, behind)) = parsed_tree(input, tally) {
            lemma_block_extends(rest, levels, behind, more);
            if let Ok((body, rest, behind)) = parsed_block(rest, levels, behind) {
                lemma_branches_extend(rest, done.push(FlowBranch { condition, body }), total, levels, behind, more);
            }
        }
    }
}

/// Tells whether capability requirements that are read from a longer input
/// agree with what was read from its front.
spec fn refusal_extends<T>(
    parsed: Result<(T, Seq<u8>), CapabilityRefusal>,
    longer: Result<(T, Seq<u8>), CapabilityRefusal>,
    more: Seq<u8>,
) -> bool {
    match parsed {
        Err(CapabilityRefusal::Failure(ClientPlanError::Truncated)) => true,
        Err(refusal) => longer == Err::<(T, Seq<u8>), CapabilityRefusal>(refusal),
        Ok((value, rest)) => longer == Ok::<(T, Seq<u8>), CapabilityRefusal>((value, rest + more)),
    }
}

/// A text of a requirement.
proof fn lemma_requirement_text_extends(input: Seq<u8>, part: RequirementText, more: Seq<u8>)
    ensures
        extends(parsed_requirement_text(input, part), parsed_requirement_text(input + more, part), more),
{
}

/// A requirement.
proof fn lemma_requirement_extends(input: Seq<u8>, done: Seq<Requirement>, more: Seq<u8>)
    ensures
        refusal_extends(parsed_requirement(input, done), parsed_requirement(input + more, done), more),
{
    lemma_requirement_text_extends(input, RequirementText::Name, more);
    if let Ok((_, rest)) = parsed_requirement_text(input, RequirementText::Name) {
        if let Some((_, rest)) = read_u8(rest) {
            lemma_requirement_text_extends(rest, RequirementText::Argument, more);
        }
    }
}

/// Requirements.
proof fn lemma_requirements_extend(input: Seq<u8>, done: Seq<Requirement>, total: nat, more: Seq<u8>)
    ensures
        refusal_extends(parsed_requirements(input, done, total), parsed_requirements(input + more, done, total), more),
    decreases total - done.len(),
{
    if done.len() < total {
        lemma_requirement_extends(input, done, more);
        if let Ok((requirement, rest)) = parsed_requirement(input, done) {
            lemma_requirements_extend(rest, done.push(requirement), total, more);
        }
    }
}

/// A Boolean plan ends where its content ends.
proof fn lemma_boolean_plan_ends(bytes: Seq<u8>, more: Seq<u8>)
    requires
        more.len() > 0,
    ensures
        ends_exactly(decoded_boolean_plan(bytes), decoded_boolean_plan(bytes + more)),
{
    lemma_header_extends(bytes, FORMAT_VERSION, RETURN_BOOLEAN_OPERATION, more);
}

/// Every strict prefix of a Boolean plan is refused as truncated.
pub proof fn law_boolean_plan_prefix_truncated(bytes: Seq<u8>, length: nat)
    requires
        decoded_boolean_plan(bytes) is Ok,
        length < bytes.len(),
    ensures
        decoded_boolean_plan(bytes.take(length as int)) == Err::<bool, ClientPlanError>(ClientPlanError::Truncated),
{
    let front = bytes.take(length as int);
    let more = bytes.skip(length as int);
    assert(front + more =~= bytes);
    assert(bytes.len() == front.len() + more.len());
    lemma_boolean_plan_ends(front, more);
}

/// A Boolean plan is refused for its trailing bytes with anything behind it.
pub proof fn law_boolean_plan_trailing_refused(bytes: Seq<u8>, more: Seq<u8>)
    requires
        decoded_boolean_plan(bytes) is Ok,
        more.len() > 0,
    ensures
        decoded_boolean_plan(bytes + more) == Err::<bool, ClientPlanError>(ClientPlanError::TrailingBytes),
{
    lemma_boolean_plan_ends(bytes, more);
}

/// An opaque plan ends where its content ends.
proof fn lemma_opaque_plan_ends(bytes: Seq<u8>, more: Seq<u8>)
    requires
        more.len() > 0,
    ensures
        if bytes.len() + more.len() > MAX_ARTIFACT_BYTES {
            decoded_opaque_plan(bytes + more) == Err::<OpaqueValue, ClientPlanError>(
                size_error(bytes.len() + more.len()),
            )
        } else {
            ends_exactly(decoded_opaque_plan(bytes), decoded_opaque_plan(bytes + more))
        },
{
    lemma_header_extends(bytes, OPAQUE_FORMAT_VERSION, RETURN_OPAQUE_OPERATION, more);
}

/// Every strict prefix of an opaque plan is refused as truncated.
pub proof fn law_opaque_plan_prefix_truncated(bytes: Seq<u8>, length: nat)
    requires
        decoded_opaque_plan(bytes) is Ok,
        length < bytes.len(),
    ensures
        decoded_opaque_plan(bytes.take(length as int)) == Err::<OpaqueValue, ClientPlanError>(
            ClientPlanError::Truncated,
        ),
{
    let front = bytes.take(length as int);
    let more = bytes.skip(length as int);
    assert(front + more =~= bytes);
    assert(bytes.len() == front.len() + more.len());
    lemma_opaque_plan_ends(front, more);
}

/// An opaque plan is refused with anything behind it: as too long beyond the size limit,
/// and for its trailing bytes within it.
pub proof fn law_opaque_plan_trailing_refused(bytes: Seq<u8>, more: Seq<u8>)
    requires
        decoded_opaque_plan(bytes) is Ok,
        more.len() > 0,
    ensures
        decoded_opaque_plan(bytes + more) == if bytes.len() + more.len() > MAX_ARTIFACT_BYTES {
            Err::<OpaqueValue, ClientPlanError>(size_error(bytes.len() + more.len()))
        } else {
            Err::<OpaqueValue, ClientPlanError>(ClientPlanError::TrailingBytes)
        },
{
    lemma_opaque_plan_ends(bytes, more);
}

/// An expression plan ends where its content ends.
proof fn lemma_expression_plan_ends(bytes: Seq<u8>, more: Seq<u8>)
    requires
        more.len() > 0,
    ensures
        if bytes.len() + more.len() > MAX_ARTIFACT_BYTES {
            decoded_expression_plan(bytes + more) == Err::<Expression, ClientPlanError>(
                size_error(bytes.len() + more.len()),
            )
        } else {
            ends_exactly(decoded_expression_plan(bytes), decoded_expression_plan(bytes + more))
        },
{
    lemma_version_extends(bytes, more);
    if let Ok((version, rest)) = declared_version(bytes) {
        let operation = expression_operation(version);
        lemma_operation_extends(rest, operation, more);
        if let Ok(rest) = after_operation(rest, operation) {
            let grammar = Grammar::inspector_set(version == INSPECT_FORMAT_VERSION);
            lemma_node_extends(rest, EXPRESSION_LEVELS as nat, Tally::zero(), grammar, more);
        }
    }
}

/// Every strict prefix of an expression plan is refused as truncated.
pub proof fn law_expression_plan_prefix_truncated(bytes: Seq<u8>, length: nat)
    requires
        decoded_expression_plan(bytes) is Ok,
        length < bytes.len(),
    ensures
        decoded_expression_plan(bytes.take(length as int)) == Err::<Expression, ClientPlanError>(
            ClientPlanError::Truncated,
        ),
{
    let front = bytes.take(length as int);
    let more = bytes.skip(length as int);
    assert(front + more =~= bytes);
    assert(bytes.len() == front.len() + more.len());
    lemma_expression_plan_ends(front, more);
}

/// An expression plan is refused with anything behind it: as too long beyond the size limit,
/// and for its trailing bytes within it.
pub proof fn law_expression_plan_trailing_refused(bytes: Seq<u8>, more: Seq<u8>)
    requires
        decoded_expression_plan(bytes) is Ok,
        more.len() > 0,
    ensures
        decoded_expression_plan(bytes + more) == if bytes.len() + more.len() > MAX_ARTIFACT_BYTES {
            Err::<Expression, ClientPlanError>(size_error(bytes.len() + more.len()))
        } else {
            Err::<Expression, ClientPlanError>(ClientPlanError::TrailingBytes)
        },
{
    lemma_expression_plan_ends(bytes, more);
}

/// A state plan ends where its content ends.
#[verifier::rlimit(60)]
#[verifier::spinoff_prover]
proof fn lemma_state_plan_ends(bytes: Seq<u8>, more: Seq<u8>)
    requires
        more.len() > 0,
    ensures
        if bytes.len() + more.len() > MAX_ARTIFACT_BYTES {
            decoded_state_plan(bytes + more) == Err::<StatePlan, ClientPlanError>(
                size_error(bytes.len() + more.len()),
            )
        } else {
            ends_exactly(decoded_state_plan(bytes), decoded_state_plan(bytes + more))
        },
{
    lemma_header_extends(bytes, STATE_FORMAT_VERSION, RETURN_STATE_OPERATION, more);
    if let Ok(rest) = after_header(bytes, STATE_FORMAT_VERSION, RETURN_STATE_OPERATION) {
        lemma_state_tree_extends(rest, more);
        if let Ok((_, rest)) = parsed_state_tree(rest) {
            if let Some((count, rest)) = read_u32(rest) {
                lemma_slots_extend(rest, Seq::empty(), count as nat, more);
            }
        }
    }
}

/// Every strict prefix of a state plan is refused as truncated.
pub proof fn law_state_plan_prefix_truncated(bytes: Seq<u8>, length: nat)
    requires
        decoded_state_plan(bytes) is Ok,
        length < bytes.len(),
    ensures
        decoded_state_plan(bytes.take(length as int)) == Err::<StatePlan, ClientPlanError>(
            ClientPlanError::Truncated,
        ),
{
    let front = bytes.take(length as int);
    let more = bytes.skip(length as int);
    assert(front + more =~= bytes);
    assert(bytes.len() == front.len() + more.len());
    lemma_state_plan_ends(front, more);
}

/// A state plan is refused with anything behind it: as too long beyond the size limit,
/// and for its trailing bytes within it.
pub proof fn law_state_plan_trailing_refused(bytes: Seq<u8>, more: Seq<u8>)
    requires
        decoded_state_plan(bytes) is Ok,
        more.len() > 0,
    ensures
        decoded_state_plan(bytes + more) == if bytes.len() + more.len() > MAX_ARTIFACT_BYTES {
            Err::<StatePlan, ClientPlanError>(size_error(bytes.len() + more.len()))
        } else {
            Err::<StatePlan, ClientPlanError>(ClientPlanError::TrailingBytes)
        },
{
    lemma_state_plan_ends(bytes, more);
}

/// A resource plan ends where its content ends.
proof fn lemma_resource_plan_ends(bytes: Seq<u8>, more: Seq<u8>)
    requires
        more.len() > 0,
    ensures
        if bytes.len() + more.len() > MAX_ARTIFACT_BYTES {
            decoded_resource_plan(bytes + more) == Err::<Expression, ClientPlanError>(
                size_error(bytes.len() + more.len()),
            )
        } else {
            ends_exactly(decoded_resource_plan(bytes), decoded_resource_plan(bytes + more))
        },
{
    lemma_header_extends(bytes, RESOURCE_FORMAT_VERSION, RETURN_RESOURCE_OPERATION, more);
    if let Ok(rest) = after_header(bytes, RESOURCE_FORMAT_VERSION, RETURN_RESOURCE_OPERATION) {
        lemma_node_extends(rest, EXPRESSION_LEVELS as nat, Tally::zero(), Grammar::resource_set(), more);
    }
}

/// Every strict prefix of a resource plan is refused as truncated.
pub proof fn law_resource_plan_prefix_truncated(bytes: Seq<u8>, length: nat)
    requires
        decoded_resource_plan(bytes) is Ok,
        length < bytes.len(),
    ensures
        decoded_resource_plan(bytes.take(length as int)) == Err::<Expression, ClientPlanError>(
            ClientPlanError::Truncated,
        ),
{
    let front = bytes.take(length as int);
    let more = bytes.skip(length as int);
    assert(front + more =~= bytes);
    assert(bytes.len() == front.len() + more.len());
    lemma_resource_plan_ends(front, more);
}

/// A resource plan is refused with anything behind it: as too long beyond the size limit,
/// and for its trailing bytes within it.
pub proof fn law_resource_plan_trailing_refused(bytes: Seq<u8>, more: Seq<u8>)
    requires
        decoded_resource_plan(bytes) is Ok,
        more.len() > 0,
    ensures
        decoded_resource_plan(bytes + more) == if bytes.len() + more.len() > MAX_ARTIFACT_BYTES {
            Err::<Expression, ClientPlanError>(size_error(bytes.len() + more.len()))
        } else {
            Err::<Expression, ClientPlanError>(ClientPlanError::TrailingBytes)
        },
{
    lemma_resource_plan_ends(bytes, more);
}

/// A procedural plan ends where its content ends.
proof fn lemma_procedural_plan_ends(bytes: Seq<u8>, more: Seq<u8>)
    requires
        more.len() > 0,
    ensures
        if bytes.len() + more.len() > MAX_ARTIFACT_BYTES {
            decoded_procedural_plan(bytes + more) == Err::<ProceduralPlan, ClientPlanError>(
                size_error(bytes.len() + more.len()),
            )
        } else {
            ends_exactly(decoded_procedural_plan(bytes), decoded_procedural_plan(bytes + more))
        },
{
    lemma_header_extends(bytes, PROCEDURAL_FORMAT_VERSION, RETURN_PROCEDURAL_OPERATION, more);
    if let Ok(rest) = after_header(bytes, PROCEDURAL_FORMAT_VERSION, RETURN_PROCEDURAL_OPERATION) {
        lemma_procedural_payload_extends(rest, more);
    }
}

/// Every strict prefix of a procedural plan is refused as truncated.
pub proof fn law_procedural_plan_prefix_truncated(bytes: Seq<u8>, length: nat)
    requires
        decoded_procedural_plan(bytes) is Ok,
        length < bytes.len(),
    ensures
        decoded_procedural_plan(bytes.take(length as int)) == Err::<ProceduralPlan, ClientPlanError>(
            ClientPlanError::Truncated,
        ),
{
    let front = bytes.take(length as int);
    let more = bytes.skip(length as int);
    assert(front + more =~= bytes);
    assert(bytes.len() == front.len() + more.len());
    lemma_procedural_plan_ends(front, more);
}

/// A procedural plan is refused with anything behind it: as too long beyond the size limit,
/// and for its trailing bytes within it.
pub proof fn law_procedural_plan_trailing_refused(bytes: Seq<u8>, more: Seq<u8>)
    requires
        decoded_procedural_plan(bytes) is Ok,
        more.len() > 0,
    ensures
        decoded_procedural_plan(bytes + more) == if bytes.len() + more.len() > MAX_ARTIFACT_BYTES {
            Err::<ProceduralPlan, ClientPlanError>(size_error(bytes.len() + more.len()))
        } else {
            Err::<ProceduralPlan, ClientPlanError>(ClientPlanError::TrailingBytes)
        },
{
    lemma_procedural_plan_ends(bytes, more);
}

/// An action plan ends where its content ends.
proof fn lemma_action_plan_ends(bytes: Seq<u8>, more: Seq<u8>)
    requires
        more.len() > 0,
    ensures
        if bytes.len() + more.len() > MAX_ARTIFACT_BYTES {
            decoded_action_plan(bytes + more) == Err::<ActionOperation, ClientPlanError>(
                size_error(bytes.len() + more.len()),
            )
        } else {
            ends_exactly(decoded_action_plan(bytes), decoded_action_plan(bytes + more))
        },
{
    lemma_header_extends(bytes, ACTION_FORMAT_VERSION, RETURN_ACTION_OPERATION, more);
    if let Ok(rest) = after_header(bytes, ACTION_FORMAT_VERSION, RETURN_ACTION_OPERATION) {
        lemma_action_head_extends(rest, more);
        if let Ok(((_, _, _, count), rest)) = parsed_action_head(rest) {
            lemma_placed_arguments_extend(rest, Seq::empty(), count, Tally::zero(), more);
        }
    }
}

/// Every strict prefix of an action plan is refused as truncated.
pub proof fn law_action_plan_prefix_truncated(bytes: Seq<u8>, length: nat)
    requires
        decoded_action_plan(bytes) is Ok,
        length < bytes.len(),
    ensures
        decoded_action_plan(bytes.take(length as int)) == Err::<ActionOperation, ClientPlanError>(
            ClientPlanError::Truncated,
        ),
{
    let front = bytes.take(length as int);
    let more = bytes.skip(length as int);
    assert(front + more =~= bytes);
    assert(bytes.len() == front.len() + more.len());
    lemma_action_plan_ends(front, more);
}

/// An action plan is refused with anything behind it: as too long beyond the size limit,
/// and for its trailing bytes within it.
pub proof fn law_action_plan_trailing_refused(bytes: Seq<u8>, more: Seq<u8>)
    requires
        decoded_action_plan(bytes) is Ok,
        more.len() > 0,
    ensures
        decoded_action_plan(bytes + more) == if bytes.len() + more.len() > MAX_ARTIFACT_BYTES {
            Err::<ActionOperation, ClientPlanError>(size_error(bytes.len() + more.len()))
        } else {
            Err::<ActionOperation, ClientPlanError>(ClientPlanError::TrailingBytes)
        },
{
    lemma_action_plan_ends(bytes, more);
}

/// A programmable plan ends where its content ends.
proof fn lemma_flow_plan_ends(bytes: Seq<u8>, more: Seq<u8>)
    requires
        more.len() > 0,
    ensures
        if bytes.len() + more.len() > MAX_ARTIFACT_BYTES {
            decoded_flow_plan(bytes + more) == Err::<FlowPlan, ClientPlanError>(
                size_error(bytes.len() + more.len()),
            )
        } else {
            ends_exactly(decoded_flow_plan(bytes), decoded_flow_plan(bytes + more))
        },
{
    lemma_header_extends(bytes, CONTROL_FLOW_FORMAT_VERSION, RETURN_CONTROL_FLOW_OPERATION, more);
    if let Ok(rest) = after_header(bytes, CONTROL_FLOW_FORMAT_VERSION, RETURN_CONTROL_FLOW_OPERATION) {
        if let Some((count, locals)) = read_u32(rest) {
            lemma_locals_extend(locals, Seq::empty(), count as nat, LocalRule::ControlFlow, more);
        }
        assert(extends(parsed_flow_locals(rest), parsed_flow_locals(rest + more), more));
        if let Ok((_, rest)) = parsed_flow_locals(rest) {
            lemma_block_extends(rest, BLOCK_LEVELS as nat, FlowTally::zero(), more);
        }
    }
}

/// Every strict prefix of a programmable plan is refused as truncated.
pub proof fn law_flow_plan_prefix_truncated(bytes: Seq<u8>, length: nat)
    requires
        decoded_flow_plan(bytes) is Ok,
        length < bytes.len(),
    ensures
        decoded_flow_plan(bytes.take(length as int)) == Err::<FlowPlan, ClientPlanError>(
            ClientPlanError::Truncated,
        ),
{
    let front = bytes.take(length as int);
    let more = bytes.skip(length as int);
    assert(front + more =~= bytes);
    assert(bytes.len() == front.len() + more.len());
    lemma_flow_plan_ends(front, more);
}

/// A programmable plan is refused with anything behind it: as too long beyond the size limit,
/// and for its trailing bytes within it.
pub proof fn law_flow_plan_trailing_refused(bytes: Seq<u8>, more: Seq<u8>)
    requires
        decoded_flow_plan(bytes) is Ok,
        more.len() > 0,
    ensures
        decoded_flow_plan(bytes + more) == if bytes.len() + more.len() > MAX_ARTIFACT_BYTES {
            Err::<FlowPlan, ClientPlanError>(size_error(bytes.len() + more.len()))
        } else {
            Err::<FlowPlan, ClientPlanError>(ClientPlanError::TrailingBytes)
        },
{
    lemma_flow_plan_ends(bytes, more);
}

/// A capability plan ends where its content ends.
proof fn lemma_capability_plan_ends(bytes: Seq<u8>, more: Seq<u8>)
    requires
        more.len() > 0,
    ensures
        if bytes.len() + more.len() > MAX_ARTIFACT_BYTES {
            decoded_capability_plan(bytes + more) == Err::<CapabilityPlan, CapabilityRefusal>(
                CapabilityRefusal::Failure(size_error(bytes.len() + more.len())),
            )
        } else {
            refused_exactly(decoded_capability_plan(bytes), decoded_capability_plan(bytes + more))
        },
{
    lemma_header_extends(bytes, CAPABILITY_FORMAT_VERSION, RETURN_CAPABILITY_OPERATION, more);
    if let Ok(rest) = after_header(bytes, CAPABILITY_FORMAT_VERSION, RETURN_CAPABILITY_OPERATION) {
        assert(extends(parsed_inner_plan(rest), parsed_inner_plan(rest + more), more));
        if let Ok((_, rest)) = parsed_inner_plan(rest) {
            if let Some((count, rest)) = read_u32(rest) {
                lemma_requirements_extend(rest, Seq::empty(), count as nat, more);
            }
        }
    }
}

/// Every strict prefix of a capability plan is refused as truncated.
pub proof fn law_capability_plan_prefix_truncated(bytes: Seq<u8>, length: nat)
    requires
        decoded_capability_plan(bytes) is Ok,
        length < bytes.len(),
    ensures
        decoded_capability_plan(bytes.take(length as int)) == Err::<CapabilityPlan, CapabilityRefusal>(
            CapabilityRefusal::Failure(ClientPlanError::Truncated),
        ),
{
    let front = bytes.take(length as int);
    let more = bytes.skip(length as int);
    assert(front + more =~= bytes);
    assert(bytes.len() == front.len() + more.len());
    lemma_capability_plan_ends(front, more);
}

/// A capability plan is refused with anything behind it: as too long beyond the size limit,
/// and for its trailing bytes within it.
pub proof fn law_capability_plan_trailing_refused(bytes: Seq<u8>, more: Seq<u8>)
    requires
        decoded_capability_plan(bytes) is Ok,
        more.len() > 0,
    ensures
        decoded_capability_plan(bytes + more) == if bytes.len() + more.len() > MAX_ARTIFACT_BYTES {
            Err::<CapabilityPlan, CapabilityRefusal>(CapabilityRefusal::Failure(size_error(bytes.len() + more.len())))
        } else {
            Err::<CapabilityPlan, CapabilityRefusal>(CapabilityRefusal::Failure(ClientPlanError::TrailingBytes))
        },
{
    lemma_capability_plan_ends(bytes, more);
}

/// The versions are closed against each other: an artefact that declares one
/// version is refused by the decoder of every other, so an artefact that decodes
/// declares the version it was decoded as.
pub proof fn law_versions_closed(bytes: Seq<u8>, version: u32)
    requires
        bytes.len() <= MAX_ARTIFACT_BYTES,
        declared_version(bytes) is Ok,
        declared_version(bytes)->Ok_0.0 == version,
    ensures
        version != FORMAT_VERSION ==> decoded_boolean_plan(bytes) == Err::<bool, ClientPlanError>(
            ClientPlanError::UnsupportedVersion(version),
        ),
        version != OPAQUE_FORMAT_VERSION ==> decoded_opaque_plan(bytes) == Err::<OpaqueValue, ClientPlanError>(
            ClientPlanError::UnsupportedVersion(version),
        ),
        version != EXPRESSION_FORMAT_VERSION && version != INSPECT_FORMAT_VERSION ==> decoded_expression_plan(bytes)
            == Err::<Expression, ClientPlanError>(
            ClientPlanError::UnsupportedVersion(version),
        ),
        version != STATE_FORMAT_VERSION ==> decoded_state_plan(bytes) == Err::<StatePlan, ClientPlanError>(
            ClientPlanError::UnsupportedVersion(version),
        ),
        version != RESOURCE_FORMAT_VERSION ==> decoded_resource_plan(bytes) == Err::<Expression, ClientPlanError>(
            ClientPlanError::UnsupportedVersion(version),
        ),
        version != PROCEDURAL_FORMAT_VERSION ==> decoded_procedural_plan(bytes)
            == Err::<ProceduralPlan, ClientPlanError>(
            ClientPlanError::UnsupportedVersion(version),
        ),
        version != ACTION_FORMAT_VERSION ==> decoded_action_plan(bytes) == Err::<ActionOperation, ClientPlanError>(
            ClientPlanError::UnsupportedVersion(version),
        ),
        version != CONTROL_FLOW_FORMAT_VERSION ==> decoded_flow_plan(bytes) == Err::<FlowPlan, ClientPlanError>(
            ClientPlanError::UnsupportedVersion(version),
        ),
        version != CAPABILITY_FORMAT_VERSION ==> decoded_capability_plan(bytes)
            == Err::<CapabilityPlan, CapabilityRefusal>(
            CapabilityRefusal::Failure(ClientPlanError::UnsupportedVersion(version)),
        ),
{
}

} // verus!
