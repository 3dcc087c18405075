//! Resource and action operations: accessors and the rules on their identities
//! and argument lists.

use vstd::prelude::*;

use crate::client_plan::error::ClientPlanError;
use crate::client_plan::expression::{
    arguments_of, ActionOperation, ActionOperationNode, ClientExpressionNode, Expression, InspectOperation,
    InspectOperationNode, ResourceOperation, ResourceOperationNode,
};
use crate::client_plan::operator::{ActionTargetDomain, InspectProjection, ResourceKind};
use crate::client_plan::placement::{contract_placement, validate_external_contract_placement};
use crate::client_plan::{MAX_ACTION_ARGUMENTS, MAX_RESOURCE_ARGUMENTS};
use crate::identity::{CallSiteId, FunctionId, ParameterId, RevisionPair, TypeId};

verus! {

/// The rule that an argument list keeps.
#[derive(Clone, Copy, Debug, PartialEq, Eq, Structural)]
pub enum ArgumentRule {
    /// Call arguments stand in call order.
    Call,
    /// Resource arguments have nonzero parameters in strictly ascending order.
    Resource,
    /// Action arguments have nonzero parameters in strictly ascending order.
    Action,
}

impl ArgumentRule {
    /// The failure of a zero parameter identity.
    pub open spec fn identity_error(self) -> ClientPlanError {
        match self {
            ArgumentRule::Action => ClientPlanError::InvalidActionIdentity,
            _ => ClientPlanError::InvalidResourceIdentity,
        }
    }

    /// The failure of a parameter that follows a larger one.
    pub open spec fn order_error(self) -> ClientPlanError {
        match self {
            ArgumentRule::Action => ClientPlanError::NonCanonicalActionArgumentOrder,
            _ => ClientPlanError::NonCanonicalResourceArgumentOrder,
        }
    }

    /// The failure of a repeated parameter.
    pub open spec fn duplicate_error(self, parameter: ParameterId) -> ClientPlanError {
        match self {
            ArgumentRule::Action => ClientPlanError::DuplicateActionArgument(parameter),
            _ => ClientPlanError::DuplicateResourceArgument(parameter),
        }
    }
}

/// Why a parameter cannot follow `previous`, if it cannot.
pub open spec fn order_refusal(rule: ArgumentRule, previous: Option<ParameterId>, parameter: ParameterId) -> Option<
    ClientPlanError,
> {
    match previous {
        None => None,
        Some(previous) => if parameter.0 < previous.0 {
            Some(rule.order_error())
        } else if parameter.0 == previous.0 {
            Some(rule.duplicate_error(parameter))
        } else {
            None
        },
    }
}

/// Why a parameter cannot be the next one of an argument list, if it cannot.
pub open spec fn argument_refusal(rule: ArgumentRule, previous: Option<ParameterId>, parameter: ParameterId) -> Option<
    ClientPlanError,
> {
    if rule == ArgumentRule::Call {
        None
    } else if parameter.0 == 0 {
        Some(rule.identity_error())
    } else {
        order_refusal(rule, previous, parameter)
    }
}

/// The parameter of the last argument before `index`.
pub open spec fn previous_parameter(arguments: Seq<(ParameterId, Expression)>, index: int) -> Option<ParameterId> {
    if 0 < index <= arguments.len() {
        Some(arguments[index - 1].0)
    } else {
        None
    }
}

/// Tells whether every argument may follow the one before it.
pub open spec fn arguments_keep(rule: ArgumentRule, arguments: Seq<(ParameterId, Expression)>) -> bool {
    forall|index: int|
        0 <= index < arguments.len() ==> argument_refusal(
            rule,
            previous_parameter(arguments, index),
            (#[trigger] arguments[index]).0,
        ) is None
}

/// The first violation of the resource rule from `index` on.
pub open spec fn resource_arguments_refusal_from(arguments: Seq<(ParameterId, Expression)>, index: nat) -> Option<
    ClientPlanError,
>
    decreases arguments.len() - index,
{
    if index >= arguments.len() {
        None
    } else {
        match argument_refusal(
            ArgumentRule::Resource,
            previous_parameter(arguments, index as int),
            arguments[index as int].0,
        ) {
            Some(error) => Some(error),
            None => resource_arguments_refusal_from(arguments, index + 1),
        }
    }
}

/// Why an argument list is no resource argument list, if it is none.
pub open spec fn resource_arguments_refusal(arguments: Seq<(ParameterId, Expression)>) -> Option<ClientPlanError> {
    if arguments.len() > MAX_RESOURCE_ARGUMENTS {
        Some(ClientPlanError::ResourceArgumentLimitExceeded { limit: MAX_RESOURCE_ARGUMENTS })
    } else {
        resource_arguments_refusal_from(arguments, 0)
    }
}

/// The first order violation from `index` on.
pub open spec fn action_order_refusal_from(arguments: Seq<(ParameterId, Expression)>, index: nat) -> Option<
    ClientPlanError,
>
    decreases arguments.len() - index,
{
    if index >= arguments.len() {
        None
    } else {
        match order_refusal(
            ArgumentRule::Action,
            previous_parameter(arguments, index as int),
            arguments[index as int].0,
        ) {
            Some(error) => Some(error),
            None => action_order_refusal_from(arguments, index + 1),
        }
    }
}

/// Tells whether an argument has a zero parameter identity.
pub open spec fn has_zero_parameter(arguments: Seq<(ParameterId, Expression)>) -> bool {
    exists|index: int| 0 <= index < arguments.len() && (#[trigger] arguments[index]).0.0 == 0
}

/// Why an argument list is no action argument list, if it is none: zero
/// parameters are found before any order violation.
pub open spec fn action_arguments_refusal(arguments: Seq<(ParameterId, Expression)>) -> Option<ClientPlanError> {
    if arguments.len() > MAX_ACTION_ARGUMENTS {
        Some(ClientPlanError::ActionArgumentLimitExceeded { limit: MAX_ACTION_ARGUMENTS })
    } else if has_zero_parameter(arguments) {
        Some(ClientPlanError::InvalidActionIdentity)
    } else {
        action_order_refusal_from(arguments, 0)
    }
}

/// The first misplaced external contract among the arguments from `index` on.
pub open spec fn arguments_placement_from(arguments: Seq<(ParameterId, Expression)>, index: nat) -> Result<
    (),
    ClientPlanError,
>
    decreases arguments.len() - index,
{
    if index >= arguments.len() {
        Ok(())
    } else {
        match contract_placement(arguments[index as int].1, false) {
            Err(error) => Err(error),
            Ok(()) => arguments_placement_from(arguments, index + 1),
        }
    }
}

/// Whether an argument list is a complete action argument list.
pub open spec fn action_arguments_valid(arguments: Seq<(ParameterId, Expression)>) -> Result<(), ClientPlanError> {
    match action_arguments_refusal(arguments) {
        Some(error) => Err(error),
        None => arguments_placement_from(arguments, 0),
    }
}

/// Tells whether one of the identities that an operation pins is zero.
pub open spec fn pins_zero_identity(
    target: FunctionId,
    revision: RevisionPair,
    call_site: CallSiteId,
    result_type: TypeId,
) -> bool {
    target.0 == 0 || revision.source.0 == 0 || revision.catalogue.0 == 0 || call_site.0 == 0 || result_type.0 == 0
}

/// Why an operation is no resource operation, if it is none.
pub open spec fn resource_refusal(operation: ResourceOperation) -> Option<ClientPlanError> {
    if pins_zero_identity(operation.target, operation.target_revision, operation.call_site, operation.result_type) {
        Some(ClientPlanError::InvalidResourceIdentity)
    } else {
        resource_arguments_refusal(operation.arguments)
    }
}

/// Why an operation is no action operation, if it is none.
pub open spec fn action_refusal(operation: ActionOperation) -> Option<ClientPlanError> {
    if pins_zero_identity(operation.target, operation.target_revision, operation.call_site, operation.result_type) {
        Some(ClientPlanError::InvalidActionIdentity)
    } else {
        action_arguments_refusal(operation.arguments)
    }
}

/// Whether an operation pins nonzero identities and has a complete action
/// argument list.
pub open spec fn action_valid(operation: ActionOperation) -> Result<(), ClientPlanError> {
    if pins_zero_identity(operation.target, operation.target_revision, operation.call_site, operation.result_type) {
        Err(ClientPlanError::InvalidActionIdentity)
    } else {
        action_arguments_valid(operation.arguments)
    }
}

/// A list without a violation keeps the resource rule, and the other way round.
pub proof fn lemma_resource_arguments_keep(arguments: Seq<(ParameterId, Expression)>, index: nat)
    ensures
        resource_arguments_refusal_from(arguments, index) is None <==> forall|i: int|
            index <= i < arguments.len() ==> argument_refusal(
                ArgumentRule::Resource,
                previous_parameter(arguments, i),
                (#[trigger] arguments[i]).0,
            ) is None,
    decreases arguments.len() - index,
{
    if index < arguments.len() {
        lemma_resource_arguments_keep(arguments, index + 1);
        if resource_arguments_refusal_from(arguments, index) is Some {
            if argument_refusal(
                ArgumentRule::Resource,
                previous_parameter(arguments, index as int),
                arguments[index as int].0,
            ) is None {
                let i = choose|i: int|
                    index + 1 <= i < arguments.len() && argument_refusal(
                        ArgumentRule::Resource,
                        previous_parameter(arguments, i),
                        (#[trigger] arguments[i]).0,
                    ) is Some;
                assert(index <= i);
            } else {
                assert(arguments[index as int] == arguments[index as int]);
            }
        }
    }
}

/// A list without an order violation is in order, and the other way round.
pub proof fn lemma_action_order(arguments: Seq<(ParameterId, Expression)>, index: nat)
    ensures
        action_order_refusal_from(arguments, index) is None <==> forall|i: int|
            index <= i < arguments.len() ==> order_refusal(
                ArgumentRule::Action,
                previous_parameter(arguments, i),
                (#[trigger] arguments[i]).0,
            ) is None,
    decreases arguments.len() - index,
{
    if index < arguments.len() {
        lemma_action_order(arguments, index + 1);
        if action_order_refusal_from(arguments, index) is Some {
            if order_refusal(
                ArgumentRule::Action,
                previous_parameter(arguments, index as int),
                arguments[index as int].0,
            ) is None {
                let i = choose|i: int|
                    index + 1 <= i < arguments.len() && order_refusal(
                        ArgumentRule::Action,
                        previous_parameter(arguments, i),
                        (#[trigger] arguments[i]).0,
                    ) is Some;
                assert(index <= i);
            } else {
                assert(arguments[index as int] == arguments[index as int]);
            }
        }
    }
}

/// An accepted action argument list keeps the action rule, and the other way
/// round.
pub proof fn lemma_action_arguments_keep(arguments: Seq<(ParameterId, Expression)>)
    ensures
        action_arguments_refusal(arguments) is None <==> arguments.len() <= MAX_ACTION_ARGUMENTS && arguments_keep(
            ArgumentRule::Action,
            arguments,
        ),
{
    lemma_action_order(arguments, 0);
    if action_arguments_refusal(arguments) is None {
        assert forall|index: int| 0 <= index < arguments.len() implies argument_refusal(
            ArgumentRule::Action,
            previous_parameter(arguments, index),
            (#[trigger] arguments[index]).0,
        ) is None by {
            assert(arguments[index].0.0 != 0);
        }
    }
    if arguments_keep(ArgumentRule::Action, arguments) {
        assert forall|index: int| 0 <= index < arguments.len() implies order_refusal(
            ArgumentRule::Action,
            previous_parameter(arguments, index),
            (#[trigger] arguments[index]).0,
        ) is None by {
            assert(argument_refusal(
                ArgumentRule::Action,
                previous_parameter(arguments, index),
                arguments[index].0,
            ) is None);
        }
        if has_zero_parameter(arguments) {
            let index = choose|index: int| 0 <= index < arguments.len() && (#[trigger] arguments[index]).0.0 == 0;
            assert(argument_refusal(
                ArgumentRule::Action,
                previous_parameter(arguments, index),
                arguments[index].0,
            ) is None);
        }
    }
}

/// Checks that a parameter can follow `previous`.
pub fn validate_argument_order(rule: ArgumentRule, previous: Option<ParameterId>, parameter: ParameterId) -> (result:
    Result<(), ClientPlanError>)
    ensures
        match order_refusal(rule, previous, parameter) {
            Some(error) => result == Err::<(), ClientPlanError>(error),
            None => result == Ok::<(), ClientPlanError>(()),
        },
{
    match previous {
        None => Ok(()),
        Some(previous) => if parameter.0 < previous.0 {
            match rule {
                ArgumentRule::Action => Err(ClientPlanError::NonCanonicalActionArgumentOrder),
                _ => Err(ClientPlanError::NonCanonicalResourceArgumentOrder),
            }
        } else if parameter.0 == previous.0 {
            match rule {
                ArgumentRule::Action => Err(ClientPlanError::DuplicateActionArgument(parameter)),
                _ => Err(ClientPlanError::DuplicateResourceArgument(parameter)),
            }
        } else {
            Ok(())
        },
    }
}

/// Checks that a parameter can be the next one of an argument list.
pub fn validate_argument(rule: ArgumentRule, previous: Option<ParameterId>, parameter: ParameterId) -> (result: Result<
    (),
    ClientPlanError,
>)
    ensures
        match argument_refusal(rule, previous, parameter) {
            Some(error) => result == Err::<(), ClientPlanError>(error),
            None => result == Ok::<(), ClientPlanError>(()),
        },
{
    match rule {
        ArgumentRule::Call => Ok(()),
        ArgumentRule::Resource => if parameter.0 == 0 {
            Err(ClientPlanError::InvalidResourceIdentity)
        } else {
            validate_argument_order(rule, previous, parameter)
        },
        ArgumentRule::Action => if parameter.0 == 0 {
            Err(ClientPlanError::InvalidActionIdentity)
        } else {
            validate_argument_order(rule, previous, parameter)
        },
    }
}

/// Refuses an argument list that breaks the resource rule.
pub fn validate_resource_arguments(arguments: &Vec<(ParameterId, ClientExpressionNode)>) -> (result: Result<
    (),
    ClientPlanError,
>)
    ensures
        match resource_arguments_refusal(arguments_of(arguments@)) {
            Some(error) => result == Err::<(), ClientPlanError>(error),
            None => result == Ok::<(), ClientPlanError>(()),
        },
{
    if arguments.len() > MAX_RESOURCE_ARGUMENTS {
        return Err(ClientPlanError::ResourceArgumentLimitExceeded { limit: MAX_RESOURCE_ARGUMENTS });
    }
    let ghost list = arguments_of(arguments@);
    let mut previous: Option<ParameterId> = None;
    let mut index: usize = 0;
    while index < arguments.len()
        invariant
            index <= arguments.len(),
            list == arguments_of(arguments@),
            list.len() <= MAX_RESOURCE_ARGUMENTS,
            previous == previous_parameter(list, index as int),
            resource_arguments_refusal(list) == resource_arguments_refusal_from(list, index as nat),
        decreases arguments.len() - index,
    {
        let parameter = arguments[index].0;
        validate_argument(ArgumentRule::Resource, previous, parameter)?;
        previous = Some(parameter);
        index = index + 1;
    }
    Ok(())
}

/// Refuses an argument list that breaks the action rule.
pub fn validate_action_parameters(arguments: &Vec<(ParameterId, ClientExpressionNode)>) -> (result: Result<
    (),
    ClientPlanError,
>)
    ensures
        match action_arguments_refusal(arguments_of(arguments@)) {
            Some(error) => result == Err::<(), ClientPlanError>(error),
            None => result == Ok::<(), ClientPlanError>(()),
        },
{
    if arguments.len() > MAX_ACTION_ARGUMENTS {
        return Err(ClientPlanError::ActionArgumentLimitExceeded { limit: MAX_ACTION_ARGUMENTS });
    }
    let ghost list = arguments_of(arguments@);
    let mut index: usize = 0;
    while index < arguments.len()
        invariant
            index <= arguments.len() <= MAX_ACTION_ARGUMENTS,
            list == arguments_of(arguments@),
            forall|i: int| 0 <= i < index ==> (#[trigger] list[i]).0.0 != 0,
        decreases arguments.len() - index,
    {
        assert(list[index as int].0 == arguments[index as int].0);
        if arguments[index].0.0 == 0 {
            return Err(ClientPlanError::InvalidActionIdentity);
        }
        index = index + 1;
    }
    let mut previous: Option<ParameterId> = None;
    let mut position: usize = 0;
    while position < arguments.len()
        invariant
            position <= arguments.len(),
            list == arguments_of(arguments@),
            previous == previous_parameter(list, position as int),
            action_arguments_refusal(list) == action_order_refusal_from(list, position as nat),
        decreases arguments.len() - position,
    {
        let parameter = arguments[position].0;
        validate_argument_order(ArgumentRule::Action, previous, parameter)?;
        previous = Some(parameter);
        position = position + 1;
    }
    Ok(())
}

/// Refuses an argument list that breaks the action rule or holds a misplaced
/// external contract.
pub fn validate_action_arguments(arguments: &Vec<(ParameterId, ClientExpressionNode)>) -> (result: Result<
    (),
    ClientPlanError,
>)
    ensures
        result == action_arguments_valid(arguments_of(arguments@)),
{
    validate_action_parameters(arguments)?;
    let ghost list = arguments_of(arguments@);
    let mut index: usize = 0;
    while index < arguments.len()
        invariant
            index <= arguments.len(),
            list == arguments_of(arguments@),
            action_arguments_valid(list) == arguments_placement_from(list, index as nat),
        decreases arguments.len() - index,
    {
        assert(list[index as int].1 == arguments[index as int].1@);
        validate_external_contract_placement(&arguments[index].1, false)?;
        index = index + 1;
    }
    Ok(())
}

impl ResourceOperationNode {
    /// Creates a resource node from its checked target and argument metadata.
    pub fn new(
        kind: ResourceKind,
        target: FunctionId,
        target_revision: RevisionPair,
        call_site: CallSiteId,
        arguments: Vec<(ParameterId, ClientExpressionNode)>,
        result_type: TypeId,
    ) -> (operation: ResourceOperationNode)
        ensures
            operation == (ResourceOperationNode { kind, target, target_revision, call_site, arguments, result_type }),
    {
        ResourceOperationNode { kind, target, target_revision, call_site, arguments, result_type }
    }

    /// Returns whether the target produces a scalar or stream result.
    pub fn kind(&self) -> (kind: ResourceKind)
        ensures
            kind == self@.kind,
    {
        self.kind
    }

    /// Returns the resolved SERVER target function identity.
    pub fn target(&self) -> (target: FunctionId)
        ensures
            target == self@.target,
    {
        self.target
    }

    /// Returns the resolved SERVER target function identity.
    pub fn target_function(&self) -> (target: FunctionId)
        ensures
            target == self@.target,
    {
        self.target
    }

    /// Returns the pinned source and catalogue revision pair.
    pub fn target_revision(&self) -> (revision: RevisionPair)
        ensures
            revision == self@.target_revision,
    {
        self.target_revision
    }

    /// Returns the stable compiled call-site identity.
    pub fn call_site(&self) -> (call_site: CallSiteId)
        ensures
            call_site == self@.call_site,
    {
        self.call_site
    }

    /// Returns the stable compiled call-site identity.
    pub fn call_site_id(&self) -> (call_site: CallSiteId)
        ensures
            call_site == self@.call_site,
    {
        self.call_site
    }

    /// Returns canonical parameter-to-expression pairs.
    pub fn arguments(&self) -> (arguments: &[(ParameterId, ClientExpressionNode)])
        ensures
            arguments_of(arguments@) == self@.arguments,
    {
        self.arguments.as_slice()
    }

    /// Returns the target declaration's result type identity.
    pub fn result_type(&self) -> (result_type: TypeId)
        ensures
            result_type == self@.result_type,
    {
        self.result_type
    }

    /// Returns the target declaration's result type identity.
    pub fn declared_result_type(&self) -> (result_type: TypeId)
        ensures
            result_type == self@.result_type,
    {
        self.result_type
    }

    /// Refuses zero identities.
    pub fn validate_identities(&self) -> (result: Result<(), ClientPlanError>)
        ensures
            result == if pins_zero_identity(
                self@.target,
                self@.target_revision,
                self@.call_site,
                self@.result_type,
            ) {
                Err::<(), ClientPlanError>(ClientPlanError::InvalidResourceIdentity)
            } else {
                Ok(())
            },
    {
        if self.target.0 == 0 || self.target_revision.source.0 == 0 || self.target_revision.catalogue.0 == 0
            || self.call_site.0 == 0 || self.result_type.0 == 0 {
            return Err(ClientPlanError::InvalidResourceIdentity);
        }
        Ok(())
    }

    /// Refuses zero identities and an argument list that breaks the resource
    /// rule.
    pub fn validate(&self) -> (result: Result<(), ClientPlanError>)
        ensures
            match resource_refusal(self@) {
                Some(error) => result == Err::<(), ClientPlanError>(error),
                None => result == Ok::<(), ClientPlanError>(()),
            },
    {
        self.validate_identities()?;
        validate_resource_arguments(&self.arguments)
    }
}

impl ActionOperationNode {
    /// Creates an action node from its checked target and argument metadata.
    pub fn new(
        domain: ActionTargetDomain,
        target: FunctionId,
        target_revision: RevisionPair,
        call_site: CallSiteId,
        arguments: Vec<(ParameterId, ClientExpressionNode)>,
        result_type: TypeId,
    ) -> (operation: ActionOperationNode)
        ensures
            operation == (ActionOperationNode { domain, target, target_revision, call_site, arguments, result_type }),
    {
        ActionOperationNode { domain, target, target_revision, call_site, arguments, result_type }
    }

    /// Returns the CLIENT or SERVER target domain.
    pub fn domain(&self) -> (domain: ActionTargetDomain)
        ensures
            domain == self@.domain,
    {
        self.domain
    }

    /// Returns the resolved action target function identity.
    pub fn target(&self) -> (target: FunctionId)
        ensures
            target == self@.target,
    {
        self.target
    }

    /// Returns the resolved action target function identity.
    pub fn target_function(&self) -> (target: FunctionId)
        ensures
            target == self@.target,
    {
        self.target
    }

    /// Returns the pinned source and catalogue revision pair.
    pub fn target_revision(&self) -> (revision: RevisionPair)
        ensures
            revision == self@.target_revision,
    {
        self.target_revision
    }

    /// Returns the stable compiled call-site identity.
    pub fn call_site(&self) -> (call_site: CallSiteId)
        ensures
            call_site == self@.call_site,
    {
        self.call_site
    }

    /// Returns the stable compiled call-site identity.
    pub fn call_site_id(&self) -> (call_site: CallSiteId)
        ensures
            call_site == self@.call_site,
    {
        self.call_site
    }

    /// Returns canonical parameter-to-expression pairs.
    pub fn arguments(&self) -> (arguments: &[(ParameterId, ClientExpressionNode)])
        ensures
            arguments_of(arguments@) == self@.arguments,
    {
        self.arguments.as_slice()
    }

    /// Returns the target declaration's result type identity.
    pub fn result_type(&self) -> (result_type: TypeId)
        ensures
            result_type == self@.result_type,
    {
        self.result_type
    }

    /// Returns the target declaration's result type identity.
    pub fn declared_result_type(&self) -> (result_type: TypeId)
        ensures
            result_type == self@.result_type,
    {
        self.result_type
    }

    /// Refuses zero identities.
    pub fn validate_identities(&self) -> (result: Result<(), ClientPlanError>)
        ensures
            result == if pins_zero_identity(
                self@.target,
                self@.target_revision,
                self@.call_site,
                self@.result_type,
            ) {
                Err::<(), ClientPlanError>(ClientPlanError::InvalidActionIdentity)
            } else {
                Ok(())
            },
    {
        if self.target.0 == 0 || self.target_revision.source.0 == 0 || self.target_revision.catalogue.0 == 0
            || self.call_site.0 == 0 || self.result_type.0 == 0 {
            return Err(ClientPlanError::InvalidActionIdentity);
        }
        Ok(())
    }

    /// Refuses zero identities and an argument list that breaks the action
    /// rule.
    pub fn validate(&self) -> (result: Result<(), ClientPlanError>)
        ensures
            match action_refusal(self@) {
                Some(error) => result == Err::<(), ClientPlanError>(error),
                None => result == Ok::<(), ClientPlanError>(()),
            },
    {
        self.validate_identities()?;
        validate_action_parameters(&self.arguments)
    }

    /// Refuses zero identities and every argument list that is no complete
    /// action argument list.
    pub fn validate_placed(&self) -> (result: Result<(), ClientPlanError>)
        ensures
            result == action_valid(self@),
    {
        self.validate_identities()?;
        validate_action_arguments(&self.arguments)
    }
}

impl InspectOperationNode {
    /// Creates a snapshot with the structural-only default options.
    pub fn snapshot(target: ClientExpressionNode) -> (operation: InspectOperationNode)
        ensures
            operation@ == (InspectOperation::Snapshot { target: Box::new(target@), options: None }),
    {
        InspectOperationNode::Snapshot { target: Box::new(target), options: None }
    }

    /// Creates a projection of a snapshot.
    pub fn projection(projection: InspectProjection, snapshot: ClientExpressionNode) -> (operation:
        InspectOperationNode)
        ensures
            operation@ == (InspectOperation::Projection { projection, snapshot: Box::new(snapshot@) }),
    {
        InspectOperationNode::Projection { projection, snapshot: Box::new(snapshot) }
    }

    /// Returns the inspected expression of a snapshot.
    pub fn target(&self) -> (target: Option<&ClientExpressionNode>)
        ensures
            match self@ {
                InspectOperation::Snapshot { target: expected, .. } => target is Some && target->Some_0@ == *expected,
                InspectOperation::Projection { .. } => target is None,
            },
    {
        match self {
            InspectOperationNode::Snapshot { target, .. } => Some(target),
            InspectOperationNode::Projection { .. } => None,
        }
    }

    /// Returns the snapshot-options expression when present. Every accepted
    /// plan uses the structural-only default and has none.
    pub fn options(&self) -> (options: Option<&ClientExpressionNode>)
        ensures
            match self@ {
                InspectOperation::Snapshot { options: Some(expected), .. } => options is Some && options->Some_0@
                    == *expected,
                _ => options is None,
            },
    {
        match self {
            InspectOperationNode::Snapshot { options, .. } => match options {
                Some(options) => Some(options),
                None => None,
            },
            InspectOperationNode::Projection { .. } => None,
        }
    }

    /// Alias for the options accessor with an explicit carrier name.
    pub fn snapshot_options(&self) -> (options: Option<&ClientExpressionNode>)
        ensures
            match self@ {
                InspectOperation::Snapshot { options: Some(expected), .. } => options is Some && options->Some_0@
                    == *expected,
                _ => options is None,
            },
    {
        self.options()
    }

    /// Returns the projected aspect.
    pub fn projection_kind(&self) -> (kind: Option<InspectProjection>)
        ensures
            kind == match self@ {
                InspectOperation::Snapshot { .. } => None,
                InspectOperation::Projection { projection, .. } => Some(projection),
            },
    {
        match self {
            InspectOperationNode::Snapshot { .. } => None,
            InspectOperationNode::Projection { projection, .. } => Some(*projection),
        }
    }

    /// Returns the snapshot expression of a projection.
    pub fn snapshot_expression(&self) -> (snapshot: Option<&ClientExpressionNode>)
        ensures
            match self@ {
                InspectOperation::Snapshot { .. } => snapshot is None,
                InspectOperation::Projection { snapshot: expected, .. } => snapshot is Some && snapshot->Some_0@
                    == *expected,
            },
    {
        match self {
            InspectOperationNode::Snapshot { .. } => None,
            InspectOperationNode::Projection { snapshot, .. } => Some(snapshot),
        }
    }
}

} // verus!
