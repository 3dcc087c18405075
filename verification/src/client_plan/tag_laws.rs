//! The bytes that stand for the members of the closed sets.

use vstd::prelude::*;

use crate::client_plan::error::ClientPlanError;
use crate::client_plan::local::ClientLocalKind;
use crate::client_plan::operator::{
    ActionTargetDomain, ControlFlowBinaryOperator, ControlFlowUnaryOperator, InspectProjection, ResourceKind,
};
use crate::client_plan::state::StateScope;

verus! {

/// Each byte that an Inspector projection is written as is read back as that one, and every
/// other byte is refused by its value.
pub proof fn law_inspect_projection_tags(
    member: InspectProjection,
    tag: u8,
    byte: u8,
    result: Result<InspectProjection, ClientPlanError>,
)
    requires
        call_ensures(InspectProjection::tag, (member,), tag),
        call_ensures(InspectProjection::from_tag, (byte,), result),
    ensures
        byte == tag <==> result == Ok::<InspectProjection, ClientPlanError>(member),
        member == InspectProjection::InvocationNodes <==> tag == 1,
        member == InspectProjection::Calls <==> tag == 2,
        member == InspectProjection::Resources <==> tag == 3,
        member == InspectProjection::StateCells <==> tag == 4,
        member == InspectProjection::UiNodes <==> tag == 5,
        member == InspectProjection::PresentationCandidates <==> tag == 6,
        member == InspectProjection::RuntimeBindings <==> tag == 7,
        member == InspectProjection::SecurityDecisions <==> tag == 8,
        result is Err <==> byte < 1 || byte > 8,
        result matches Err(error) ==> error == ClientPlanError::InvalidInspectProjection(byte),
{
}

/// Each byte that a unary operator is written as is read back as that one, and every
/// other byte is refused by its value.
pub proof fn law_unary_operator_tags(
    member: ControlFlowUnaryOperator,
    tag: u8,
    byte: u8,
    result: Result<ControlFlowUnaryOperator, ClientPlanError>,
)
    requires
        call_ensures(ControlFlowUnaryOperator::tag, (member,), tag),
        call_ensures(ControlFlowUnaryOperator::from_tag, (byte,), result),
    ensures
        byte == tag <==> result == Ok::<ControlFlowUnaryOperator, ClientPlanError>(member),
        member == ControlFlowUnaryOperator::Plus <==> tag == 1,
        member == ControlFlowUnaryOperator::Minus <==> tag == 2,
        member == ControlFlowUnaryOperator::Not <==> tag == 3,
        result is Err <==> byte < 1 || byte > 3,
        result matches Err(error) ==> error == ClientPlanError::InvalidControlFlowUnaryOperator(byte),
{
}

/// Each byte that a binary operator is written as is read back as that one, and every
/// other byte is refused by its value.
pub proof fn law_binary_operator_tags(
    member: ControlFlowBinaryOperator,
    tag: u8,
    byte: u8,
    result: Result<ControlFlowBinaryOperator, ClientPlanError>,
)
    requires
        call_ensures(ControlFlowBinaryOperator::tag, (member,), tag),
        call_ensures(ControlFlowBinaryOperator::from_tag, (byte,), result),
    ensures
        byte == tag <==> result == Ok::<ControlFlowBinaryOperator, ClientPlanError>(member),
        member == ControlFlowBinaryOperator::Add <==> tag == 1,
        member == ControlFlowBinaryOperator::Subtract <==> tag == 2,
        member == ControlFlowBinaryOperator::Multiply <==> tag == 3,
        member == ControlFlowBinaryOperator::Divide <==> tag == 4,
        member == ControlFlowBinaryOperator::Modulo <==> tag == 5,
        member == ControlFlowBinaryOperator::Equal <==> tag == 6,
        member == ControlFlowBinaryOperator::NotEqual <==> tag == 7,
        member == ControlFlowBinaryOperator::LessThan <==> tag == 8,
        member == ControlFlowBinaryOperator::GreaterThan <==> tag == 9,
        member == ControlFlowBinaryOperator::LessThanOrEqual <==> tag == 10,
        member == ControlFlowBinaryOperator::GreaterThanOrEqual <==> tag == 11,
        member == ControlFlowBinaryOperator::And <==> tag == 12,
        member == ControlFlowBinaryOperator::Or <==> tag == 13,
        result is Err <==> byte < 1 || byte > 13,
        result matches Err(error) ==> error == ClientPlanError::InvalidControlFlowBinaryOperator(byte),
{
}

/// Each byte that a kind of resource is written as is read back as that one, and every
/// other byte is refused by its value.
pub proof fn law_resource_kind_tags(
    member: ResourceKind,
    tag: u8,
    byte: u8,
    result: Result<ResourceKind, ClientPlanError>,
)
    requires
        call_ensures(ResourceKind::tag, (member,), tag),
        call_ensures(ResourceKind::from_tag, (byte,), result),
    ensures
        byte == tag <==> result == Ok::<ResourceKind, ClientPlanError>(member),
        member == ResourceKind::Scalar <==> tag == 1,
        member == ResourceKind::Stream <==> tag == 2,
        result is Err <==> byte < 1 || byte > 2,
        result matches Err(error) ==> error == ClientPlanError::InvalidResourceKind(byte),
{
}

/// Each byte that a domain that an action addresses is written as is read back as that one, and every
/// other byte is refused by its value.
pub proof fn law_action_domain_tags(
    member: ActionTargetDomain,
    tag: u8,
    byte: u8,
    result: Result<ActionTargetDomain, ClientPlanError>,
)
    requires
        call_ensures(ActionTargetDomain::tag, (member,), tag),
        call_ensures(ActionTargetDomain::from_tag, (byte,), result),
    ensures
        byte == tag <==> result == Ok::<ActionTargetDomain, ClientPlanError>(member),
        member == ActionTargetDomain::Client <==> tag == 1,
        member == ActionTargetDomain::Server <==> tag == 2,
        result is Err <==> byte < 1 || byte > 2,
        result matches Err(error) ==> error == ClientPlanError::InvalidActionDomain(byte),
{
}

/// Each byte that a kind of local is written as is read back as that one, and every
/// other byte is refused by its value.
pub proof fn law_local_kind_tags(
    member: ClientLocalKind,
    tag: u8,
    byte: u8,
    result: Result<ClientLocalKind, ClientPlanError>,
)
    requires
        call_ensures(ClientLocalKind::tag, (member,), tag),
        call_ensures(ClientLocalKind::from_tag, (byte,), result),
    ensures
        byte == tag <==> result == Ok::<ClientLocalKind, ClientPlanError>(member),
        member == ClientLocalKind::Value <==> tag == 0,
        member == ClientLocalKind::Resource(ResourceKind::Scalar) <==> tag == 1,
        member == ClientLocalKind::Resource(ResourceKind::Stream) <==> tag == 2,
        result is Err <==> byte > 2,
        result matches Err(error) ==> error == ClientPlanError::InvalidLocalKind(byte),
{
}

/// Each byte that a scope of state is written as is read back as that one, and every
/// other byte is refused by its value.
pub proof fn law_state_scope_tags(
    member: StateScope,
    tag: u8,
    byte: u8,
    result: Result<StateScope, ClientPlanError>,
)
    requires
        call_ensures(StateScope::tag, (member,), tag),
        call_ensures(StateScope::from_tag, (byte,), result),
    ensures
        byte == tag <==> result == Ok::<StateScope, ClientPlanError>(member),
        member == StateScope::Local <==> tag == 1,
        member == StateScope::Session <==> tag == 2,
        member == StateScope::User <==> tag == 3,
        result is Err <==> byte < 1 || byte > 3,
        result matches Err(error) ==> error == ClientPlanError::InvalidStateScope(byte),
{
}

} // verus!
