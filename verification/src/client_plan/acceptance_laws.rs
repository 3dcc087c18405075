//! Which expression, state, capability, resource, action and opaque plans are
//! accepted, and how every artefact starts.
//!
//! The conditions are written out over the parts of a plan and the node at every
//! path of its trees.

use vstd::prelude::*;
use vstd::utf8::encode_utf8;

use crate::artifact_codec::{lemma_read_u32, u32_bytes};
use crate::big_endian::{be_value, lemma_be_bytes_len};
use crate::client_plan::action::{action_plan_bytes, encoded_action_plan};
use crate::client_plan::boolean::boolean_plan_bytes;
use crate::client_plan::capability::{
    capability_plan_bytes, encoded_capability_plan, encoded_inner_plan, inner_version, name_required,
    requirement_refusal, requirements_refusal, CapabilityPlan, CapabilityRefusal, InnerPlan, Requirement,
};
use crate::client_plan::control_flow::encoded_flow_plan;
use crate::client_plan::error::ClientPlanError;
use crate::client_plan::expression::{argument_values, ActionOperation, Expression};
use crate::client_plan::expression_plan::{encoded_expression_plan, expression_plan_bytes};
use crate::client_plan::grammar::{Grammar, Tally};
use crate::client_plan::header::header_bytes;
use crate::client_plan::limit_laws::{resource_count, total_nodes, total_resources};
use crate::client_plan::node_codec::node_then;
use crate::client_plan::opaque::{encoded_opaque_plan, opaque_plan_bytes, OpaqueValue};
use crate::client_plan::plan_laws::{node_count, tree_levels};
use crate::client_plan::procedural::encoded_procedural_plan;
use crate::client_plan::procedural_laws::within_caps;
use crate::client_plan::resource::{encoded_resource_plan, law_resource_plan_awaits_root, resource_plan_bytes};
use crate::client_plan::state::{
    defaults_valid, encoded_state_plan, repeated_slot, slot_seen, state_plan_bytes, state_tree_valid, InitialState,
    Slot, StatePlan,
};
use crate::client_plan::tree_laws::{
    action_stands, children, contract_only_at_root, everywhere, holds_inspect, law_action_arguments_accepted_exactly,
    law_argument_contracts_placed_exactly, law_contracts_placed_exactly, law_inspect_found,
    law_suspension_placed_exactly, law_tree_admitted_exactly, law_trees_admitted_exactly, no_contract, of_set, plain,
    values,
};

verus! {

/// The nodes of a set with nothing but the plain nodes, and Inspector operations
/// where `inspect` says so.
pub open spec fn closed(inspect: bool) -> Grammar {
    Grammar { resources: false, locals: false, inspect, programmable: false }
}

/// Tells whether a tree is bounded and its set holds the node at every path.
pub open spec fn tree_stands(expression: Expression, set: Grammar) -> bool {
    &&& within_caps(expression)
    &&& resource_count(expression) <= 64
    &&& everywhere(expression, of_set(set))
}

/// Tells whether an expression plan is one that versions 3 and 9 carry: its tree
/// is bounded and holds only closed nodes, or those and Inspector operations, and
/// an external contract stands at most at the root, and not even there beside an
/// Inspector operation.
pub open spec fn expression_stands(expression: Expression) -> bool {
    &&& tree_stands(expression, closed(holds_inspect(expression)))
    &&& contract_only_at_root(expression)
    &&& holds_inspect(expression) ==> !(expression is ExternalContract)
}

/// An expression plan is encoded exactly where it is one that versions 3 and 9
/// carry and its artefact keeps the size limit.
pub proof fn law_expression_plan_accepted_exactly(expression: Expression)
    ensures
        encoded_expression_plan(expression) is Ok <==> expression_stands(expression) && expression_plan_bytes(
            expression,
        ).len() <= 0x100_0000,
{
    law_inspect_found(expression);
    law_contracts_placed_exactly(expression, true);
    law_contracts_placed_exactly(expression, false);
    law_tree_admitted_exactly(expression, 65, Tally::zero(), closed(holds_inspect(expression)));
}

/// Tells whether a tree of a state plan stands: it is closed and bounded, and
/// holds no external contract.
pub open spec fn state_tree_stands(expression: Expression) -> bool {
    &&& tree_stands(expression, closed(false))
    &&& contract_only_at_root(expression)
    &&& !(expression is ExternalContract)
}

/// A tree of a state plan is accepted exactly where it stands.
proof fn lemma_state_tree(expression: Expression)
    ensures
        state_tree_valid(expression) is Ok <==> state_tree_stands(expression),
{
    law_contracts_placed_exactly(expression, false);
    law_tree_admitted_exactly(expression, 65, Tally::zero(), closed(false));
}

/// No slot is repeated exactly where none shares the identity of an earlier one.
proof fn lemma_slots(slots: Seq<Slot>, index: nat)
    ensures
        repeated_slot(slots, index) is None <==> forall|earlier: int, place: int|
            0 <= earlier < place < slots.len() && index <= place ==> (#[trigger] slots[earlier]).id != (
            #[trigger] slots[place]).id,
    decreases slots.len() - index,
{
    if index < slots.len() {
        lemma_slots(slots, index + 1);
        if slot_seen(slots, index as int, slots[index as int].id) {
            let earlier = choose|earlier: int|
                0 <= earlier < index && (#[trigger] slots[earlier]).id == slots[index as int].id;
            assert(slots[earlier].id == slots[index as int].id);
        }
    }
}

/// Defaults are accepted exactly where each of their trees stands.
proof fn lemma_defaults(slots: Seq<Slot>, index: nat)
    ensures
        defaults_valid(slots, index) is Ok <==> forall|place: int|
            index <= place < slots.len() ==> ((#[trigger] slots[place]).default matches InitialState::Expression(tree)
                ==> state_tree_stands(tree)),
    decreases slots.len() - index,
{
    if index < slots.len() {
        lemma_defaults(slots, index + 1);
        if let InitialState::Expression(tree) = slots[index as int].default {
            lemma_state_tree(tree);
        }
        assert(defaults_valid(slots, index) is Ok <==> (
        slots[index as int].default matches InitialState::Expression(tree) ==> state_tree_stands(tree))
            && defaults_valid(slots, index + 1) is Ok);
    }
}

/// Tells whether a state plan is one that version 4 carries: it has 1 to 64 slots
/// with distinct identities, and its returned tree and the tree of every default
/// stand.
pub open spec fn state_stands(plan: StatePlan) -> bool {
    &&& 1 <= plan.slots.len() <= 64
    &&& forall|first: int, second: int|
        0 <= first < second < plan.slots.len() ==> (#[trigger] plan.slots[first]).id != (
        #[trigger] plan.slots[second]).id
    &&& state_tree_stands(plan.expression)
    &&& forall|place: int|
        0 <= place < plan.slots.len() ==> ((#[trigger] plan.slots[place]).default matches InitialState::Expression(
            tree,
        ) ==> state_tree_stands(tree))
}

/// A state plan is encoded exactly where it is one that version 4 carries and its
/// artefact keeps the size limit.
pub proof fn law_state_plan_accepted_exactly(plan: StatePlan)
    ensures
        encoded_state_plan(plan) is Ok <==> state_stands(plan) && state_plan_bytes(plan).len() <= 0x100_0000,
{
    lemma_slots(plan.slots, 0);
    lemma_defaults(plan.slots, 0);
    lemma_state_tree(plan.expression);
}

/// Tells whether a resource plan is one that version 6 carries: its tree is one
/// await over one resource operation whose arguments hold only plain nodes, is
/// bounded, and holds only nodes of its set and no external contract.
pub open spec fn resource_plan_stands(expression: Expression) -> bool {
    &&& expression matches Expression::Await { expression: awaited } && *awaited is Resource && forall|place: int|
        0 <= place < children(*awaited).len() ==> everywhere(#[trigger] children(*awaited)[place], plain())
    &&& tree_stands(expression, Grammar { resources: true, locals: false, inspect: false, programmable: false })
    &&& contract_only_at_root(expression)
}

/// A resource plan is encoded exactly where it is one that version 6 carries and
/// its artefact keeps the size limit.
pub proof fn law_resource_plan_accepted_exactly(expression: Expression)
    ensures
        encoded_resource_plan(expression) is Ok <==> resource_plan_stands(expression) && resource_plan_bytes(
            expression,
        ).len() <= 0x100_0000,
{
    let set = Grammar { resources: true, locals: false, inspect: false, programmable: false };
    law_resource_plan_awaits_root(expression);
    law_contracts_placed_exactly(expression, false);
    law_tree_admitted_exactly(expression, 65, Tally::zero(), set);
    if let Expression::Await { expression: awaited } = expression {
        law_suspension_placed_exactly(expression, *awaited);
        if *awaited is Resource {
            assert(children(expression)[0] == *awaited);
            lemma_one_resource(expression, *awaited);
        }
    }
}

/// An await over a resource operation holds a resource operation.
proof fn lemma_one_resource(expression: Expression, awaited: Expression)
    requires
        expression == (Expression::Await { expression: Box::new(awaited) }),
        awaited is Resource,
    ensures
        resource_count(expression) >= 1,
{
    assert(resource_count(awaited) >= 1);
    assert(crate::client_plan::expression::operands(expression)[0] == awaited);
}

/// Tells whether an action plan is one that version 8 carries: its operation pins
/// its target and has at most 64 ascending arguments, each bounded, closed and
/// without an external contract, all of them together with at most 1024 nodes.
pub open spec fn action_plan_stands(operation: ActionOperation) -> bool {
    &&& action_stands(operation)
    &&& forall|place: int|
        0 <= place < operation.arguments.len() ==> within_caps((#[trigger] operation.arguments[place]).1)
            && everywhere(operation.arguments[place].1, no_contract()) && everywhere(
            operation.arguments[place].1,
            of_set(closed(false)),
        )
    &&& total_nodes(values(operation.arguments), 0) <= 1024
    &&& total_resources(values(operation.arguments), 0) <= 64
}

/// An action plan is encoded exactly where it is one that version 8 carries and
/// its artefact keeps the size limit.
pub proof fn law_action_plan_accepted_exactly(operation: ActionOperation)
    ensures
        encoded_action_plan(operation) is Ok <==> action_plan_stands(operation) && action_plan_bytes(operation).len()
            <= 0x100_0000,
{
    let arguments = operation.arguments;
    let trees = values(arguments);
    law_action_arguments_accepted_exactly(arguments);
    law_argument_contracts_placed_exactly(arguments, 0);
    law_trees_admitted_exactly(trees, 0, 65, Tally::zero(), closed(false));
    assert(argument_values(arguments) =~= trees);
    assert forall|place: int| 0 <= place < arguments.len() implies #[trigger] trees[place]
        == arguments[place].1 by {}
    let each = forall|place: int|
        0 <= place < arguments.len() ==> within_caps((#[trigger] arguments[place]).1) && everywhere(
            arguments[place].1,
            no_contract(),
        ) && everywhere(arguments[place].1, of_set(closed(false)));
    if encoded_action_plan(operation) is Ok {
        assert forall|place: int| 0 <= place < arguments.len() implies within_caps((#[trigger] arguments[place]).1)
            && everywhere(arguments[place].1, no_contract()) && everywhere(
            arguments[place].1,
            of_set(closed(false)),
        ) by {
            assert(trees[place] == arguments[place].1);
        }
    }
    if each {
        assert forall|place: int| 0 <= place < trees.len() implies tree_levels(#[trigger] trees[place]) <= 65
            && everywhere(trees[place], of_set(closed(false))) by {
            assert(within_caps(arguments[place].1));
        }
        assert forall|place: int| 0 <= place < arguments.len() implies {
            &&& tree_levels((#[trigger] arguments[place]).1) <= 65
            &&& node_count(arguments[place].1) <= 1024
            &&& everywhere(arguments[place].1, no_contract())
        } by {
            assert(within_caps(arguments[place].1));
        }
    }
}

/// Tells whether a requirement has a name and an argument within their limits.
pub open spec fn requirement_sized(requirement: Requirement) -> bool {
    &&& 1 <= encode_utf8(requirement.name).len() <= 256
    &&& 1 <= encode_utf8(requirement.argument.text()).len() <= 1024
}

/// Requirements are accepted exactly where each is sized and none repeats the
/// name of an earlier one.
proof fn lemma_requirements(requirements: Seq<Requirement>, index: nat)
    ensures
        requirements_refusal(requirements, index) is None <==> {
            &&& forall|place: int|
                index <= place < requirements.len() ==> requirement_sized(#[trigger] requirements[place])
            &&& forall|earlier: int, place: int|
                0 <= earlier < place < requirements.len() && index <= place ==> (#[trigger] requirements[earlier]).name
                    != (#[trigger] requirements[place]).name
        },
    decreases requirements.len() - index,
{
    if index < requirements.len() {
        lemma_requirements(requirements, index + 1);
        let requirement = requirements[index as int];
        if name_required(requirements, index as int, requirement.name) {
            let earlier = choose|earlier: int|
                0 <= earlier < index && (#[trigger] requirements[earlier]).name == requirement.name;
            assert(requirements[earlier].name == requirements[index as int].name);
        }
        assert(requirement_refusal(requirements, index as int) is None <==> requirement_sized(
            requirements[index as int],
        ) && !name_required(requirements, index as int, requirement.name));
    }
}

/// Tells whether a capability plan is one that version 5 carries: its inner plan
/// can be encoded, and it has 1 to 64 requirements, each with a name of 1 to 256
/// bytes that no other has and an argument of 1 to 1024 bytes.
pub open spec fn capability_stands(plan: CapabilityPlan) -> bool {
    &&& 1 <= plan.requirements.len() <= 64
    &&& forall|place: int|
        0 <= place < plan.requirements.len() ==> requirement_sized(#[trigger] plan.requirements[place])
    &&& forall|first: int, second: int|
        0 <= first < second < plan.requirements.len() ==> (#[trigger] plan.requirements[first]).name != (
        #[trigger] plan.requirements[second]).name
    &&& encoded_inner_plan(plan.inner) is Ok
}

/// A capability plan is encoded exactly where it is one that version 5 carries
/// and its artefact keeps the size limit. A name that is told to be repeated is
/// the name of two requirements.
pub proof fn law_capability_plan_accepted_exactly(plan: CapabilityPlan)
    ensures
        encoded_capability_plan(plan) is Ok <==> capability_stands(plan) && capability_plan_bytes(
            inner_version(plan.inner),
            encoded_inner_plan(plan.inner)->Ok_0,
            plan.requirements,
        ).len() <= 0x100_0000,
        encoded_inner_plan(plan.inner) is Ok ==> (
        encoded_capability_plan(plan) matches Err(CapabilityRefusal::DuplicateName(name)) ==> exists|
            first: int,
            second: int,
        |
            0 <= first < second < plan.requirements.len() && (#[trigger] plan.requirements[first]).name == name && (
            #[trigger] plan.requirements[second]).name == name),
{
    lemma_requirements(plan.requirements, 0);
    lemma_repeated_name(plan.requirements, 0);
}

/// A repeated name is the name of two requirements.
proof fn lemma_repeated_name(requirements: Seq<Requirement>, index: nat)
    ensures
        requirements_refusal(requirements, index) matches Some(CapabilityRefusal::DuplicateName(name)) ==> exists|
            first: int,
            second: int,
        |
            0 <= first < second < requirements.len() && (#[trigger] requirements[first]).name == name && (
            #[trigger] requirements[second]).name == name,
    decreases requirements.len() - index,
{
    if index < requirements.len() {
        lemma_repeated_name(requirements, index + 1);
        let requirement = requirements[index as int];
        if name_required(requirements, index as int, requirement.name) {
            let earlier = choose|earlier: int|
                0 <= earlier < index && (#[trigger] requirements[earlier]).name == requirement.name;
            assert(requirements[earlier].name == requirement.name && requirements[index as int].name
                == requirement.name);
        }
    }
}

/// An inner plan is encoded as a plan of its own kind is, and declares that
/// kind's version.
pub proof fn law_inner_plan_encoding(inner: InnerPlan)
    ensures
        match inner {
            InnerPlan::Boolean(value) => inner_version(inner) == 1 && encoded_inner_plan(inner) == Ok::<
                Seq<u8>,
                ClientPlanError,
            >(boolean_plan_bytes(value)),
            InnerPlan::Opaque(plan) => inner_version(inner) == 2 && encoded_inner_plan(inner) == encoded_opaque_plan(
                plan,
            ),
            InnerPlan::Expression(expression) => inner_version(inner) == (if holds_inspect(expression) {
                9u32
            } else {
                3u32
            }) && encoded_inner_plan(inner) == encoded_expression_plan(expression),
            InnerPlan::State(plan) => inner_version(inner) == 4 && encoded_inner_plan(inner) == encoded_state_plan(
                plan,
            ),
            InnerPlan::Resource(expression) => inner_version(inner) == 6 && encoded_inner_plan(inner)
                == encoded_resource_plan(expression),
            InnerPlan::Procedural(plan) => inner_version(inner) == 7 && encoded_inner_plan(inner)
                == encoded_procedural_plan(plan),
            InnerPlan::Action(operation) => inner_version(inner) == 8 && encoded_inner_plan(inner)
                == encoded_action_plan(operation),
            InnerPlan::ControlFlow(plan) => inner_version(inner) == 10 && encoded_inner_plan(inner)
                == encoded_flow_plan(plan),
        },
{
    reveal(encoded_inner_plan);
    if let InnerPlan::Expression(expression) = inner {
        law_inspect_found(expression);
    }
}

/// An opaque plan is encoded exactly where its payload leaves room for the 33
/// bytes around it, and the payload stands at the end of the artefact.
pub proof fn law_opaque_plan_accepted_exactly(plan: OpaqueValue)
    ensures
        encoded_opaque_plan(plan) is Ok <==> plan.payload.len() + 33 <= 0x100_0000,
        encoded_opaque_plan(plan) matches Ok(bytes) ==> bytes.len() == plan.payload.len() + 33 && bytes.skip(33)
            == plan.payload,
{
    broadcast use lemma_be_bytes_len;

    let bytes = opaque_plan_bytes(plan);
    assert(bytes.len() == plan.payload.len() + 33);
    assert(bytes.skip(33) =~= plan.payload);
}

/// Tells whether an artefact starts with the magic of client plans, a version as
/// a big-endian number, and an operation.
pub open spec fn starts_with(bytes: Seq<u8>, version: u32, operation: u8) -> bool {
    &&& bytes.len() >= 13
    &&& bytes.take(8) == seq![79u8, 82u8, 78u8, 65u8, 67u8, 80u8, 0u8, 0u8]
    &&& be_value(bytes.subrange(8, 12)) == version
    &&& bytes[12] == operation
}

/// A header is the magic, the version and the operation.
proof fn lemma_starts(version: u32, operation: u8, rest: Seq<u8>)
    ensures
        starts_with(header_bytes(version, operation) + rest, version, operation),
{
    broadcast use lemma_be_bytes_len;

    let bytes = header_bytes(version, operation) + rest;
    assert(bytes.take(8) =~= seq![79u8, 82u8, 78u8, 65u8, 67u8, 80u8, 0u8, 0u8]);
    lemma_read_u32(version, seq![operation] + rest);
    assert(bytes.subrange(8, 12) =~= (u32_bytes(version) + (seq![operation] + rest)).take(4));
    crate::big_endian::lemma_radix_powers();
    crate::big_endian::lemma_be_bytes_of_value(bytes.subrange(8, 12));
}

/// Every encoded artefact starts with the magic, the version of its kind and the
/// operation of its kind.
pub proof fn law_artifacts_start(inner: InnerPlan, plan: CapabilityPlan)
    ensures
        encoded_inner_plan(inner) matches Ok(bytes) ==> match inner {
            InnerPlan::Boolean(_) => starts_with(bytes, 1, 1),
            InnerPlan::Opaque(_) => starts_with(bytes, 2, 2),
            InnerPlan::Expression(expression) => if holds_inspect(expression) {
                starts_with(bytes, 9, 9)
            } else {
                starts_with(bytes, 3, 3)
            },
            InnerPlan::State(_) => starts_with(bytes, 4, 4),
            InnerPlan::Resource(_) => starts_with(bytes, 6, 6),
            InnerPlan::Procedural(_) => starts_with(bytes, 7, 7),
            InnerPlan::Action(_) => starts_with(bytes, 8, 8),
            InnerPlan::ControlFlow(_) => starts_with(bytes, 10, 10),
        },
        encoded_capability_plan(plan) matches Ok(bytes) ==> starts_with(bytes, 5, 5),
{
    reveal(encoded_inner_plan);
    if encoded_inner_plan(inner) is Ok {
        let bytes = encoded_inner_plan(inner)->Ok_0;
        match inner {
            InnerPlan::Boolean(value) => {
                lemma_starts(1, 1, seq![crate::artifact_codec::boolean_byte(value)]);
            },
            InnerPlan::Opaque(plan) => {
                lemma_starts(
                    2,
                    2,
                    crate::identity::identity_bytes(plan.opaque_type.0) + (u32_bytes(plan.payload.len() as u32)
                        + plan.payload),
                );
            },
            InnerPlan::Expression(expression) => {
                law_inspect_found(expression);
                let version = crate::client_plan::expression_plan::expression_version(expression);
                let operation = crate::client_plan::expression_plan::expression_operation(version);
                lemma_starts(version, operation, crate::client_plan::node_encode::node_bytes(expression));
            },
            InnerPlan::State(plan) => {
                lemma_starts(
                    4,
                    4,
                    node_then(
                        plan.expression,
                        u32_bytes(plan.slots.len() as u32) + crate::client_plan::state::slots_then(
                            plan.slots,
                            0,
                            Seq::empty(),
                        ),
                    ),
                );
            },
            InnerPlan::Resource(expression) => {
                lemma_starts(6, 6, crate::client_plan::node_encode::node_bytes(expression));
            },
            InnerPlan::Procedural(plan) => {
                lemma_starts(7, 7, crate::client_plan::procedural::procedural_payload(plan));
            },
            InnerPlan::Action(operation) => {
                lemma_starts(8, 8, crate::client_plan::node_codec::action_then(operation, Seq::empty()));
            },
            InnerPlan::ControlFlow(plan) => {
                lemma_starts(10, 10, crate::client_plan::control_flow::flow_payload(plan));
            },
        }
    }
    if encoded_capability_plan(plan) is Ok {
        lemma_starts(
            5,
            5,
            crate::client_plan::capability::capability_payload(
                inner_version(plan.inner),
                encoded_inner_plan(plan.inner)->Ok_0,
                plan.requirements,
            ),
        );
    }
}

/// Every node starts with the tag of its kind.
pub proof fn law_node_tags(expression: Expression, rest: Seq<u8>)
    ensures
        node_then(expression, rest).len() > 0,
        node_then(expression, rest)[0] == match expression {
            Expression::Call { .. } => 1u8,
            Expression::String { .. } => 2u8,
            Expression::Integer { .. } => 3u8,
            Expression::Boolean { .. } => 4u8,
            Expression::ParameterRead { .. } => 5u8,
            Expression::FieldPath { .. } => 6u8,
            Expression::Concat { .. } => 7u8,
            Expression::ExternalContract { .. } => 8u8,
            Expression::Await { .. } => 9u8,
            Expression::Resource { .. } => 10u8,
            Expression::LocalRead { .. } => 11u8,
            Expression::Action { .. } => 12u8,
            Expression::Inspect { .. } => 13u8,
            Expression::Unary { .. } => 14u8,
            Expression::Binary { .. } => 15u8,
            Expression::SourceIntrospection => 16u8,
            Expression::Input => 17u8,
            Expression::Evaluate { .. } => 18u8,
        },
{
}

} // verus!
