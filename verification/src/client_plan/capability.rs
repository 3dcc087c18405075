//! Version 5: a plan of another version with the capabilities that it requires.
//!
//! ```text
//! header: version 5, operation 5
//! inner version: u32 big-endian = 1..=4|6..=10
//! inner length: u32 big-endian
//! inner artefact[inner length]
//! capability count: u32 big-endian, 1..=MAX_CAPABILITY_REQUIREMENTS
//! capability: name length: u32 big-endian, 1..=MAX_CAPABILITY_NAME_LENGTH
//!             name UTF-8[name length]
//!             argument tag: u8 = 1|2 (text|parameter)
//!             argument length: u32 big-endian, 1..=MAX_CAPABILITY_ARGUMENT_LENGTH
//!             argument UTF-8[argument length]
//! ```
//!
//! The names of the required capabilities are distinct.

use vstd::prelude::*;
use vstd::utf8::encode_utf8;

use crate::artifact_codec::{lemma_bytes_read, lemma_u32_read, lemma_u8_read};
use crate::artifact_codec::{lemma_read_bytes, lemma_read_u32, lemma_read_u8};
use crate::artifact_codec::{read_bytes, read_u32, read_u8, u32_bytes, viewed, Reader, Writer};
use crate::client_plan::action::{
    decoded_action_plan, encoded_action_plan, law_action_plan_canonical, law_action_plan_round_trip, ActionClientPlan,
};
use crate::client_plan::boolean::{
    boolean_plan_bytes, decoded_boolean_plan, law_boolean_plan_canonical, law_boolean_plan_round_trip, ClientPlan,
};
use crate::client_plan::control_flow::{
    decoded_flow_plan, encoded_flow_plan, law_flow_plan_canonical, law_flow_plan_round_trip, ControlFlowClientPlan,
    FlowPlan,
};
use crate::client_plan::error::ClientPlanError;
use crate::client_plan::expression::{ActionOperation, Expression};
use crate::client_plan::expression_plan::{
    decoded_expression_plan, encoded_expression_plan, expression_version, law_expression_plan_canonical,
    law_expression_plan_round_trip, ExpressionClientPlan,
};
use crate::client_plan::header::{
    after_header, finish_artifact, header_bytes, lemma_header, lemma_header_read, put_header, require_finished,
    size_error, sized, take_bytes, take_header, take_u32, take_u8, validate_artifact_size,
};
use crate::client_plan::node_codec::{text_then, Parsed};
use crate::client_plan::opaque::{
    decoded_opaque_plan, encoded_opaque_plan, law_opaque_plan_canonical, law_opaque_plan_round_trip, OpaqueClientPlan,
    OpaqueValue,
};
use crate::client_plan::procedural::{
    decoded_procedural_plan, encoded_procedural_plan, law_procedural_plan_canonical, law_procedural_plan_round_trip,
    ProceduralClientPlan, ProceduralPlan,
};
use crate::client_plan::resource::{
    decoded_resource_plan, encoded_resource_plan, law_resource_plan_canonical, law_resource_plan_round_trip,
    ResourceClientPlan,
};
use crate::client_plan::state::{
    decoded_state_plan, encoded_state_plan, law_state_plan_canonical, law_state_plan_round_trip, StateClientPlan,
    StatePlan,
};
use crate::client_plan::{
    ACTION_FORMAT_VERSION, CAPABILITY_ARGUMENT_PARAMETER, CAPABILITY_ARGUMENT_TEXT, CAPABILITY_FORMAT_VERSION,
    CONTROL_FLOW_FORMAT_VERSION, EXPRESSION_FORMAT_VERSION, FORMAT_VERSION, INSPECT_FORMAT_VERSION,
    MAX_ARTIFACT_BYTES, MAX_CAPABILITY_ARGUMENT_LENGTH, MAX_CAPABILITY_NAME_LENGTH, MAX_CAPABILITY_REQUIREMENTS,
    OPAQUE_FORMAT_VERSION, PROCEDURAL_FORMAT_VERSION, RESOURCE_FORMAT_VERSION, RETURN_CAPABILITY_OPERATION,
    STATE_FORMAT_VERSION,
};
use crate::text::{decode_text, decoded_text, law_text_round_trip};

verus! {

/// The argument source of one CLIENT capability requirement.
///
/// The envelope is independent of the client grant model: literal scope text
/// and parameter names travel as plain strings. Every requirement has exactly
/// one argument, either a literal or a declared parameter reference.
#[derive(Clone, Debug, Eq, PartialEq)]
pub enum CapabilityArgumentSource {
    /// A literal scope value written in the declaration.
    Text(String),
    /// A reference to one declared function parameter by name.
    Parameter(String),
}

/// One ordered, closed CLIENT capability requirement: a qualified capability
/// name plus exactly one argument source.
#[derive(Clone, Debug, Eq, PartialEq)]
pub struct CapabilityRequirement {
    pub name: String,
    pub argument: CapabilityArgumentSource,
}

/// The inner plan carried by one version-5 capability envelope: a complete plan
/// of any other version.
#[derive(Clone, Debug, Eq, PartialEq)]
pub enum InnerClientPlan {
    /// A version-1 Boolean-constant plan.
    Boolean(ClientPlan),
    /// A version-2 opaque-value plan.
    Opaque(OpaqueClientPlan),
    /// A version-3 or version-9 expression plan.
    Expression(ExpressionClientPlan),
    /// A version-4 state plan.
    State(StateClientPlan),
    /// A version-6 resource-operation plan.
    Resource(ResourceClientPlan),
    /// A version-7 procedural plan.
    Procedural(ProceduralClientPlan),
    /// A version-8 action plan.
    Action(ActionClientPlan),
    /// A version-10 programmable control-flow plan.
    ControlFlow(ControlFlowClientPlan),
}

/// A checked version-5 CLIENT plan that carries one inner plan and the owning
/// function's ordered, closed capability requirements.
#[derive(Clone, Debug, Eq, PartialEq)]
pub struct CapabilityClientPlan {
    pub inner_plan: InnerClientPlan,
    pub requirements: Vec<CapabilityRequirement>,
}

/// The mathematical argument source.
pub enum Argument {
    Text(Seq<char>),
    Parameter(Seq<char>),
}

impl Argument {
    /// The text of this argument.
    pub open spec fn text(self) -> Seq<char> {
        match self {
            Argument::Text(text) => text,
            Argument::Parameter(text) => text,
        }
    }

    /// The wire tag of this argument.
    pub open spec fn wire(self) -> u8 {
        match self {
            Argument::Text(_) => CAPABILITY_ARGUMENT_TEXT,
            Argument::Parameter(_) => CAPABILITY_ARGUMENT_PARAMETER,
        }
    }
}

/// The mathematical requirement.
pub struct Requirement {
    pub name: Seq<char>,
    pub argument: Argument,
}

/// The mathematical inner plan.
pub enum InnerPlan {
    Boolean(bool),
    Opaque(OpaqueValue),
    Expression(Expression),
    State(StatePlan),
    Resource(Expression),
    Procedural(ProceduralPlan),
    Action(ActionOperation),
    ControlFlow(FlowPlan),
}

/// The mathematical capability plan.
pub struct CapabilityPlan {
    pub inner: InnerPlan,
    pub requirements: Seq<Requirement>,
}

/// Why a capability plan is refused. A refusal tells two failures apart exactly
/// where their variants or fields differ.
pub enum CapabilityRefusal {
    /// A requirement repeats this name.
    DuplicateName(Seq<char>),
    /// Any other failure.
    Failure(ClientPlanError),
}

impl ClientPlanError {
    /// What this failure refuses.
    pub open spec fn refusal(self) -> CapabilityRefusal {
        match self {
            ClientPlanError::DuplicateCapabilityName(name) => CapabilityRefusal::DuplicateName(name@),
            error => CapabilityRefusal::Failure(error),
        }
    }
}

/// Tells that a result stands for an outcome.
pub open spec fn agrees<T: View>(result: Result<T, ClientPlanError>, outcome: Result<T::V, CapabilityRefusal>) -> bool {
    match outcome {
        Ok(value) => result is Ok && result->Ok_0@ == value,
        Err(refusal) => result is Err && result->Err_0.refusal() == refusal,
    }
}

impl View for CapabilityArgumentSource {
    type V = Argument;

    open spec fn view(&self) -> Argument {
        match *self {
            CapabilityArgumentSource::Text(text) => Argument::Text(text@),
            CapabilityArgumentSource::Parameter(text) => Argument::Parameter(text@),
        }
    }
}

impl View for CapabilityRequirement {
    type V = Requirement;

    open spec fn view(&self) -> Requirement {
        Requirement { name: self.name@, argument: self.argument@ }
    }
}

impl View for InnerClientPlan {
    type V = InnerPlan;

    open spec fn view(&self) -> InnerPlan {
        match *self {
            InnerClientPlan::Boolean(plan) => InnerPlan::Boolean(plan@),
            InnerClientPlan::Opaque(plan) => InnerPlan::Opaque(plan@),
            InnerClientPlan::Expression(plan) => InnerPlan::Expression(plan@),
            InnerClientPlan::State(plan) => InnerPlan::State(plan@),
            InnerClientPlan::Resource(plan) => InnerPlan::Resource(plan@),
            InnerClientPlan::Procedural(plan) => InnerPlan::Procedural(plan@),
            InnerClientPlan::Action(plan) => InnerPlan::Action(plan@),
            InnerClientPlan::ControlFlow(plan) => InnerPlan::ControlFlow(plan@),
        }
    }
}

/// The requirements that requirement records stand for.
pub open spec fn requirements_of(requirements: Seq<CapabilityRequirement>) -> Seq<Requirement> {
    Seq::new(requirements.len(), |index: int| requirements[index]@)
}

impl View for CapabilityClientPlan {
    type V = CapabilityPlan;

    open spec fn view(&self) -> CapabilityPlan {
        CapabilityPlan { inner: self.inner_plan@, requirements: requirements_of(self.requirements@) }
    }
}

/// The version of an inner plan.
pub open spec fn inner_version(inner: InnerPlan) -> u32 {
    match inner {
        InnerPlan::Boolean(_) => FORMAT_VERSION,
        InnerPlan::Opaque(_) => OPAQUE_FORMAT_VERSION,
        InnerPlan::Expression(expression) => expression_version(expression),
        InnerPlan::State(_) => STATE_FORMAT_VERSION,
        InnerPlan::Resource(_) => RESOURCE_FORMAT_VERSION,
        InnerPlan::Procedural(_) => PROCEDURAL_FORMAT_VERSION,
        InnerPlan::Action(_) => ACTION_FORMAT_VERSION,
        InnerPlan::ControlFlow(_) => CONTROL_FLOW_FORMAT_VERSION,
    }
}

/// What encoding an inner plan gives.
#[verifier::opaque]
pub open spec fn encoded_inner_plan(inner: InnerPlan) -> Result<Seq<u8>, ClientPlanError> {
    match inner {
        InnerPlan::Boolean(value) => Ok(boolean_plan_bytes(value)),
        InnerPlan::Opaque(plan) => encoded_opaque_plan(plan),
        InnerPlan::Expression(expression) => encoded_expression_plan(expression),
        InnerPlan::State(plan) => encoded_state_plan(plan),
        InnerPlan::Resource(expression) => encoded_resource_plan(expression),
        InnerPlan::Procedural(plan) => encoded_procedural_plan(plan),
        InnerPlan::Action(operation) => encoded_action_plan(operation),
        InnerPlan::ControlFlow(plan) => encoded_flow_plan(plan),
    }
}

/// What decoding `bytes` as an inner plan of a declared version gives.
#[verifier::opaque]
pub open spec fn decoded_inner_plan(version: u32, bytes: Seq<u8>) -> Result<InnerPlan, ClientPlanError> {
    if version == FORMAT_VERSION {
        match decoded_boolean_plan(bytes) {
            Ok(value) => Ok(InnerPlan::Boolean(value)),
            Err(error) => Err(error),
        }
    } else if version == OPAQUE_FORMAT_VERSION {
        match decoded_opaque_plan(bytes) {
            Ok(plan) => Ok(InnerPlan::Opaque(plan)),
            Err(error) => Err(error),
        }
    } else if version == EXPRESSION_FORMAT_VERSION || version == INSPECT_FORMAT_VERSION {
        match decoded_expression_plan(bytes) {
            Ok(expression) => Ok(InnerPlan::Expression(expression)),
            Err(error) => Err(error),
        }
    } else if version == STATE_FORMAT_VERSION {
        match decoded_state_plan(bytes) {
            Ok(plan) => Ok(InnerPlan::State(plan)),
            Err(error) => Err(error),
        }
    } else if version == RESOURCE_FORMAT_VERSION {
        match decoded_resource_plan(bytes) {
            Ok(expression) => Ok(InnerPlan::Resource(expression)),
            Err(error) => Err(error),
        }
    } else if version == PROCEDURAL_FORMAT_VERSION {
        match decoded_procedural_plan(bytes) {
            Ok(plan) => Ok(InnerPlan::Procedural(plan)),
            Err(error) => Err(error),
        }
    } else if version == ACTION_FORMAT_VERSION {
        match decoded_action_plan(bytes) {
            Ok(operation) => Ok(InnerPlan::Action(operation)),
            Err(error) => Err(error),
        }
    } else if version == CONTROL_FLOW_FORMAT_VERSION {
        match decoded_flow_plan(bytes) {
            Ok(plan) => Ok(InnerPlan::ControlFlow(plan)),
            Err(error) => Err(error),
        }
    } else {
        Err(ClientPlanError::UnsupportedInnerVersion(version))
    }
}

/// The two texts of a requirement.
#[derive(Clone, Copy, Debug, PartialEq, Eq, Structural)]
pub enum RequirementText {
    /// The qualified capability name.
    Name,
    /// The text of the argument.
    Argument,
}

impl RequirementText {
    /// The longest admitted UTF-8 length.
    pub open spec fn longest(self) -> usize {
        match self {
            RequirementText::Name => MAX_CAPABILITY_NAME_LENGTH,
            RequirementText::Argument => MAX_CAPABILITY_ARGUMENT_LENGTH,
        }
    }

    /// Why a text with this UTF-8 length is refused, if it is.
    pub open spec fn length_refusal(self, length: nat) -> Option<ClientPlanError> {
        if length == 0 {
            Some(
                match self {
                    RequirementText::Name => ClientPlanError::EmptyCapabilityName,
                    RequirementText::Argument => ClientPlanError::EmptyCapabilityArgument,
                },
            )
        } else if length > self.longest() {
            Some(
                match self {
                    RequirementText::Name => ClientPlanError::CapabilityNameTooLong {
                        length: length as usize,
                        limit: MAX_CAPABILITY_NAME_LENGTH,
                    },
                    RequirementText::Argument => ClientPlanError::CapabilityArgumentTooLong {
                        length: length as usize,
                        limit: MAX_CAPABILITY_ARGUMENT_LENGTH,
                    },
                },
            )
        } else {
            None
        }
    }

    /// The failure of bytes that are no UTF-8.
    pub open spec fn encoding_error(self) -> ClientPlanError {
        match self {
            RequirementText::Name => ClientPlanError::InvalidCapabilityNameUtf8,
            RequirementText::Argument => ClientPlanError::InvalidCapabilityArgumentUtf8,
        }
    }

    /// Refuses a length outside the admitted ones.
    fn validate_length(self, length: usize) -> (result: Result<(), ClientPlanError>)
        ensures
            match self.length_refusal(length as nat) {
                Some(error) => result == Err::<(), ClientPlanError>(error),
                None => result == Ok::<(), ClientPlanError>(()),
            },
    {
        match self {
            RequirementText::Name => {
                if length == 0 {
                    return Err(ClientPlanError::EmptyCapabilityName);
                }
                if length > MAX_CAPABILITY_NAME_LENGTH {
                    return Err(
                        ClientPlanError::CapabilityNameTooLong { length, limit: MAX_CAPABILITY_NAME_LENGTH },
                    );
                }
            },
            RequirementText::Argument => {
                if length == 0 {
                    return Err(ClientPlanError::EmptyCapabilityArgument);
                }
                if length > MAX_CAPABILITY_ARGUMENT_LENGTH {
                    return Err(
                        ClientPlanError::CapabilityArgumentTooLong {
                            length,
                            limit: MAX_CAPABILITY_ARGUMENT_LENGTH,
                        },
                    );
                }
            },
        }
        Ok(())
    }
}

/// Tells whether one of the first `count` requirements has a name.
pub open spec fn name_required(requirements: Seq<Requirement>, count: int, name: Seq<char>) -> bool {
    exists|index: int| 0 <= index < count && (#[trigger] requirements[index]).name == name
}

/// Why the requirement at `index` is refused, if it is.
pub open spec fn requirement_refusal(requirements: Seq<Requirement>, index: int) -> Option<CapabilityRefusal> {
    let requirement = requirements[index];
    match RequirementText::Name.length_refusal(encode_utf8(requirement.name).len()) {
        Some(error) => Some(error.refusal()),
        None => if name_required(requirements, index, requirement.name) {
            Some(CapabilityRefusal::DuplicateName(requirement.name))
        } else {
            match RequirementText::Argument.length_refusal(encode_utf8(requirement.argument.text()).len()) {
                Some(error) => Some(error.refusal()),
                None => None,
            }
        },
    }
}

/// The first refused requirement from `index` on.
pub open spec fn requirements_refusal(requirements: Seq<Requirement>, index: nat) -> Option<CapabilityRefusal>
    decreases requirements.len() - index,
{
    if index >= requirements.len() {
        None
    } else {
        match requirement_refusal(requirements, index as int) {
            Some(refusal) => Some(refusal),
            None => requirements_refusal(requirements, index + 1),
        }
    }
}

/// A requirement in front of `rest`.
pub open spec fn requirement_then(requirement: Requirement, rest: Seq<u8>) -> Seq<u8> {
    text_then(
        requirement.name,
        seq![requirement.argument.wire()] + text_then(requirement.argument.text(), rest),
    )
}

/// The requirements from `index` on in front of `rest`.
pub open spec fn requirements_then(requirements: Seq<Requirement>, index: nat, rest: Seq<u8>) -> Seq<u8>
    decreases requirements.len() - index,
{
    if index >= requirements.len() {
        rest
    } else {
        requirement_then(requirements[index as int], requirements_then(requirements, index + 1, rest))
    }
}

/// What follows the header of a capability plan.
pub open spec fn capability_payload(version: u32, inner: Seq<u8>, requirements: Seq<Requirement>) -> Seq<u8> {
    u32_bytes(version) + (u32_bytes(inner.len() as u32) + (inner + (u32_bytes(requirements.len() as u32)
        + requirements_then(requirements, 0, Seq::empty()))))
}

/// The complete version-5 artefact around an encoded inner plan.
pub open spec fn capability_plan_bytes(version: u32, inner: Seq<u8>, requirements: Seq<Requirement>) -> Seq<u8> {
    header_bytes(CAPABILITY_FORMAT_VERSION, RETURN_CAPABILITY_OPERATION) + capability_payload(
        version,
        inner,
        requirements,
    )
}

/// An outcome with its failure as a refusal.
pub open spec fn refusing<T>(result: Result<T, ClientPlanError>) -> Result<T, CapabilityRefusal> {
    match result {
        Ok(value) => Ok(value),
        Err(error) => Err(error.refusal()),
    }
}

/// What encoding a capability plan gives.
pub open spec fn encoded_capability_plan(plan: CapabilityPlan) -> Result<Seq<u8>, CapabilityRefusal> {
    if plan.requirements.len() == 0 {
        Err(CapabilityRefusal::Failure(ClientPlanError::InvalidCapabilityCount { actual: 0 }))
    } else if plan.requirements.len() > MAX_CAPABILITY_REQUIREMENTS {
        Err(
            CapabilityRefusal::Failure(
                ClientPlanError::CapabilityLimitExceeded { limit: MAX_CAPABILITY_REQUIREMENTS },
            ),
        )
    } else {
        match requirements_refusal(plan.requirements, 0) {
            Some(refusal) => Err(refusal),
            None => match encoded_inner_plan(plan.inner) {
                Err(error) => Err(error.refusal()),
                Ok(inner) => refusing(
                    sized(capability_plan_bytes(inner_version(plan.inner), inner, plan.requirements)),
                ),
            },
        }
    }
}

/// A length-prefixed text of a requirement.
pub open spec fn parsed_requirement_text(input: Seq<u8>, part: RequirementText) -> Parsed<Seq<char>> {
    match read_u32(input) {
        None => Err(ClientPlanError::Truncated),
        Some((length, rest)) => match part.length_refusal(length as nat) {
            Some(error) => Err(error),
            None => match read_bytes(rest, length as nat) {
                None => Err(ClientPlanError::Truncated),
                Some((bytes, rest)) => match decoded_text(bytes) {
                    None => Err(part.encoding_error()),
                    Some(text) => Ok((text, rest)),
                },
            },
        },
    }
}

/// The requirement that follows `done`.
pub open spec fn parsed_requirement(input: Seq<u8>, done: Seq<Requirement>) -> Result<
    (Requirement, Seq<u8>),
    CapabilityRefusal,
> {
    match parsed_requirement_text(input, RequirementText::Name) {
        Err(error) => Err(error.refusal()),
        Ok((name, rest)) => if name_required(done, done.len() as int, name) {
            Err(CapabilityRefusal::DuplicateName(name))
        } else {
            match read_u8(rest) {
                None => Err(CapabilityRefusal::Failure(ClientPlanError::Truncated)),
                Some((tag, rest)) => match parsed_requirement_text(rest, RequirementText::Argument) {
                    Err(error) => Err(error.refusal()),
                    Ok((text, rest)) => if tag == CAPABILITY_ARGUMENT_TEXT {
                        Ok((Requirement { name, argument: Argument::Text(text) }, rest))
                    } else if tag == CAPABILITY_ARGUMENT_PARAMETER {
                        Ok((Requirement { name, argument: Argument::Parameter(text) }, rest))
                    } else {
                        Err(CapabilityRefusal::Failure(ClientPlanError::InvalidCapabilityArgumentTag(tag)))
                    },
                },
            }
        },
    }
}

/// Requirements up to `total`, the first of which are `done`.
pub open spec fn parsed_requirements(input: Seq<u8>, done: Seq<Requirement>, total: nat) -> Result<
    (Seq<Requirement>, Seq<u8>),
    CapabilityRefusal,
>
    decreases total - done.len(),
{
    if done.len() >= total {
        Ok((done, input))
    } else {
        match parsed_requirement(input, done) {
            Err(refusal) => Err(refusal),
            Ok((requirement, rest)) => parsed_requirements(rest, done.push(requirement), total),
        }
    }
}

/// The inner plan behind the header.
pub open spec fn parsed_inner_plan(input: Seq<u8>) -> Parsed<InnerPlan> {
    match read_u32(input) {
        None => Err(ClientPlanError::Truncated),
        Some((version, rest)) => match read_u32(rest) {
            None => Err(ClientPlanError::Truncated),
            Some((length, rest)) => match read_bytes(rest, length as nat) {
                None => Err(ClientPlanError::Truncated),
                Some((bytes, rest)) => match decoded_inner_plan(version, bytes) {
                    Err(error) => Err(error),
                    Ok(inner) => if version != inner_version(inner) {
                        Err(
                            ClientPlanError::InnerVersionMismatch {
                                declared: version,
                                actual: inner_version(inner),
                            },
                        )
                    } else {
                        Ok((inner, rest))
                    },
                },
            },
        },
    }
}

/// The requirements behind the inner plan.
pub open spec fn parsed_requirement_list(input: Seq<u8>) -> Result<(Seq<Requirement>, Seq<u8>), CapabilityRefusal> {
    match read_u32(input) {
        None => Err(CapabilityRefusal::Failure(ClientPlanError::Truncated)),
        Some((count, rest)) => if count == 0 {
            Err(CapabilityRefusal::Failure(ClientPlanError::InvalidCapabilityCount { actual: 0 }))
        } else if count > MAX_CAPABILITY_REQUIREMENTS {
            Err(
                CapabilityRefusal::Failure(
                    ClientPlanError::CapabilityLimitExceeded { limit: MAX_CAPABILITY_REQUIREMENTS },
                ),
            )
        } else {
            parsed_requirements(rest, Seq::empty(), count as nat)
        },
    }
}

/// What decoding `bytes` as version 5 gives.
pub open spec fn decoded_capability_plan(bytes: Seq<u8>) -> Result<CapabilityPlan, CapabilityRefusal> {
    if bytes.len() > MAX_ARTIFACT_BYTES {
        Err(size_error(bytes.len()).refusal())
    } else {
        match after_header(bytes, CAPABILITY_FORMAT_VERSION, RETURN_CAPABILITY_OPERATION) {
            Err(error) => Err(error.refusal()),
            Ok(rest) => match parsed_inner_plan(rest) {
                Err(error) => Err(error.refusal()),
                Ok((inner, rest)) => match parsed_requirement_list(rest) {
                    Err(refusal) => Err(refusal),
                    Ok((requirements, rest)) => if rest.len() != 0 {
                        Err(CapabilityRefusal::Failure(ClientPlanError::TrailingBytes))
                    } else {
                        Ok(CapabilityPlan { inner, requirements })
                    },
                },
            },
        }
    }
}

/// Decoding an encoded inner plan under its version gives that plan back.
#[verifier::rlimit(40)]
pub proof fn law_inner_plan_round_trip(inner: InnerPlan)
    ensures
        encoded_inner_plan(inner) matches Ok(bytes) ==> decoded_inner_plan(inner_version(inner), bytes) == Ok::<
            InnerPlan,
            ClientPlanError,
        >(inner),
{
    reveal(encoded_inner_plan);
    reveal(decoded_inner_plan);
    match inner {
        InnerPlan::Boolean(value) => law_boolean_plan_round_trip(value),
        InnerPlan::Opaque(plan) => law_opaque_plan_round_trip(plan),
        InnerPlan::Expression(expression) => law_expression_plan_round_trip(expression),
        InnerPlan::State(plan) => law_state_plan_round_trip(plan),
        InnerPlan::Resource(expression) => law_resource_plan_round_trip(expression),
        InnerPlan::Procedural(plan) => law_procedural_plan_round_trip(plan),
        InnerPlan::Action(operation) => law_action_plan_round_trip(operation),
        InnerPlan::ControlFlow(plan) => law_flow_plan_round_trip(plan),
    }
}

/// Tells whether an inner artefact that decodes is the encoding of what it
/// decodes to.
pub open spec fn inner_canonical(version: u32, bytes: Seq<u8>) -> bool {
    decoded_inner_plan(version, bytes) matches Ok(inner) ==> encoded_inner_plan(inner) == Ok::<
        Seq<u8>,
        ClientPlanError,
    >(bytes)
}

/// A Boolean plan that decodes as an inner plan is its encoding.
proof fn lemma_inner_boolean_canonical(bytes: Seq<u8>)
    ensures
        inner_canonical(FORMAT_VERSION, bytes),
{
    reveal(encoded_inner_plan);
    reveal(decoded_inner_plan);
    law_boolean_plan_canonical(bytes);
}

/// An opaque plan that decodes as an inner plan is its encoding.
proof fn lemma_inner_opaque_canonical(bytes: Seq<u8>)
    ensures
        inner_canonical(OPAQUE_FORMAT_VERSION, bytes),
{
    reveal(encoded_inner_plan);
    reveal(decoded_inner_plan);
    law_opaque_plan_canonical(bytes);
}

/// An expression plan that decodes as an inner plan is its encoding.
proof fn lemma_inner_expression_canonical(version: u32, bytes: Seq<u8>)
    requires
        version == EXPRESSION_FORMAT_VERSION || version == INSPECT_FORMAT_VERSION,
    ensures
        inner_canonical(version, bytes),
{
    reveal(encoded_inner_plan);
    reveal(decoded_inner_plan);
    law_expression_plan_canonical(bytes);
}

/// A state plan that decodes as an inner plan is its encoding.
proof fn lemma_inner_state_canonical(bytes: Seq<u8>)
    ensures
        inner_canonical(STATE_FORMAT_VERSION, bytes),
{
    reveal(encoded_inner_plan);
    reveal(decoded_inner_plan);
    law_state_plan_canonical(bytes);
}

/// A resource plan that decodes as an inner plan is its encoding.
proof fn lemma_inner_resource_canonical(bytes: Seq<u8>)
    ensures
        inner_canonical(RESOURCE_FORMAT_VERSION, bytes),
{
    reveal(encoded_inner_plan);
    reveal(decoded_inner_plan);
    law_resource_plan_canonical(bytes);
}

/// A procedural plan that decodes as an inner plan is its encoding.
proof fn lemma_inner_procedural_canonical(bytes: Seq<u8>)
    ensures
        inner_canonical(PROCEDURAL_FORMAT_VERSION, bytes),
{
    reveal(encoded_inner_plan);
    reveal(decoded_inner_plan);
    law_procedural_plan_canonical(bytes);
}

/// An action plan that decodes as an inner plan is its encoding.
proof fn lemma_inner_action_canonical(bytes: Seq<u8>)
    ensures
        inner_canonical(ACTION_FORMAT_VERSION, bytes),
{
    reveal(encoded_inner_plan);
    reveal(decoded_inner_plan);
    law_action_plan_canonical(bytes);
}

/// A control-flow plan that decodes as an inner plan is its encoding.
proof fn lemma_inner_flow_canonical(bytes: Seq<u8>)
    ensures
        inner_canonical(CONTROL_FLOW_FORMAT_VERSION, bytes),
{
    reveal(encoded_inner_plan);
    reveal(decoded_inner_plan);
    law_flow_plan_canonical(bytes);
}

/// An inner artefact that decodes is the encoding of what it decodes to.
pub proof fn law_inner_plan_canonical(version: u32, bytes: Seq<u8>)
    ensures
        inner_canonical(version, bytes),
{
    if version == FORMAT_VERSION {
        lemma_inner_boolean_canonical(bytes);
    } else if version == OPAQUE_FORMAT_VERSION {
        lemma_inner_opaque_canonical(bytes);
    } else if version == EXPRESSION_FORMAT_VERSION || version == INSPECT_FORMAT_VERSION {
        lemma_inner_expression_canonical(version, bytes);
    } else if version == STATE_FORMAT_VERSION {
        lemma_inner_state_canonical(bytes);
    } else if version == RESOURCE_FORMAT_VERSION {
        lemma_inner_resource_canonical(bytes);
    } else if version == PROCEDURAL_FORMAT_VERSION {
        lemma_inner_procedural_canonical(bytes);
    } else if version == ACTION_FORMAT_VERSION {
        lemma_inner_action_canonical(bytes);
    } else if version == CONTROL_FLOW_FORMAT_VERSION {
        lemma_inner_flow_canonical(bytes);
    } else {
        assert(decoded_inner_plan(version, bytes) is Err) by {
            reveal(decoded_inner_plan);
        }
    }
}

/// A text of an admitted length is read back.
proof fn lemma_requirement_text_round_trip(text: Seq<char>, part: RequirementText, rest: Seq<u8>)
    requires
        part.length_refusal(encode_utf8(text).len()) is None,
    ensures
        parsed_requirement_text(text_then(text, rest), part) == Ok::<(Seq<char>, Seq<u8>), ClientPlanError>(
            (text, rest),
        ),
{
    let bytes = encode_utf8(text);
    lemma_read_u32(bytes.len() as u32, bytes + rest);
    lemma_read_bytes(bytes, rest);
    law_text_round_trip(text, bytes);
}

/// What a text was read from.
proof fn lemma_requirement_text_canonical(input: Seq<u8>, part: RequirementText)
    ensures
        parsed_requirement_text(input, part) matches Ok((text, rest)) ==> {
            &&& input == text_then(text, rest)
            &&& part.length_refusal(encode_utf8(text).len()) is None
        },
{
    if parsed_requirement_text(input, part) is Ok {
        lemma_u32_read(input);
        let (length, after_length) = read_u32(input)->Some_0;
        lemma_bytes_read(after_length, length as nat);
        let (bytes, _) = read_bytes(after_length, length as nat)->Some_0;
        law_text_round_trip(Seq::empty(), bytes);
    }
}

/// An accepted requirement is read back.
#[verifier::spinoff_prover]
proof fn lemma_requirement_round_trip(requirements: Seq<Requirement>, index: int, later: Seq<u8>)
    requires
        0 <= index < requirements.len(),
        requirement_refusal(requirements, index) is None,
    ensures
        parsed_requirement(requirement_then(requirements[index], later), requirements.take(index)) == Ok::<
            (Requirement, Seq<u8>),
            CapabilityRefusal,
        >((requirements[index], later)),
{
    let done = requirements.take(index);
    let requirement = requirements[index];
    let argument = text_then(requirement.argument.text(), later);
    let after_name = seq![requirement.argument.wire()] + argument;
    lemma_requirement_text_round_trip(requirement.name, RequirementText::Name, after_name);
    lemma_read_u8(requirement.argument.wire(), argument);
    lemma_requirement_text_round_trip(requirement.argument.text(), RequirementText::Argument, later);
    assert(!name_required(done, done.len() as int, requirement.name)) by {
        if name_required(done, done.len() as int, requirement.name) {
            let seen = choose|i: int| 0 <= i < done.len() && (#[trigger] done[i]).name == requirement.name;
            assert(requirements[seen].name == requirement.name);
        }
    }
}

/// Accepted requirements are read back.
#[verifier::spinoff_prover]
proof fn lemma_requirements_round_trip(requirements: Seq<Requirement>, index: nat, rest: Seq<u8>)
    requires
        index <= requirements.len(),
        requirements_refusal(requirements, index) is None,
    ensures
        parsed_requirements(
            requirements_then(requirements, index, rest),
            requirements.take(index as int),
            requirements.len(),
        ) == Ok::<(Seq<Requirement>, Seq<u8>), CapabilityRefusal>((requirements, rest)),
    decreases requirements.len() - index,
{
    let done = requirements.take(index as int);
    if index < requirements.len() {
        let requirement = requirements[index as int];
        let later = requirements_then(requirements, index + 1, rest);
        assert(requirement_refusal(requirements, index as int) is None);
        lemma_requirement_round_trip(requirements, index as int, later);
        lemma_requirements_round_trip(requirements, index + 1, rest);
        assert(done.push(requirement) =~= requirements.take((index + 1) as int));
    } else {
        assert(done =~= requirements);
    }
}

/// What requirements were read from.
proof fn lemma_requirements_canonical(input: Seq<u8>, done: Seq<Requirement>, total: nat)
    requires
        done.len() <= total,
    ensures
        parsed_requirements(input, done, total) matches Ok((requirements, rest)) ==> {
            &&& requirements.len() == total
            &&& requirements.take(done.len() as int) == done
            &&& input == requirements_then(requirements, done.len(), rest)
            &&& requirements_refusal(requirements, done.len()) is None
        },
    decreases total - done.len(),
{
    if done.len() < total {
        if parsed_requirements(input, done, total) is Ok {
            lemma_requirement_text_canonical(input, RequirementText::Name);
            let after_name = parsed_requirement_text(input, RequirementText::Name)->Ok_0.1;
            lemma_u8_read(after_name);
            let after_tag = read_u8(after_name)->Some_0.1;
            lemma_requirement_text_canonical(after_tag, RequirementText::Argument);
            let (requirement, later) = parsed_requirement(input, done)->Ok_0;
            let next = done.push(requirement);
            lemma_requirements_canonical(later, next, total);
            let requirements = parsed_requirements(later, next, total)->Ok_0.0;
            let position = done.len() as int;
            assert(requirements[position] == requirements.take(next.len() as int)[position]);
            assert(requirements.take(position) =~= requirements.take(next.len() as int).take(position));
            assert(next.take(position) =~= done);
            assert(!name_required(requirements, position, requirement.name)) by {
                if name_required(requirements, position, requirement.name) {
                    let seen = choose|i: int|
                        0 <= i < position && (#[trigger] requirements[i]).name == requirement.name;
                    assert(requirements.take(position)[seen] == done[seen]);
                }
            }
            assert(requirement_refusal(requirements, position) is None);
        }
    } else {
        assert(done.take(done.len() as int) =~= done);
    }
}

/// Decoding an encoded capability plan gives that plan back.
#[verifier::rlimit(100)]
#[verifier::spinoff_prover]
pub proof fn law_capability_plan_round_trip(plan: CapabilityPlan)
    ensures
        encoded_capability_plan(plan) matches Ok(bytes) ==> decoded_capability_plan(bytes) == Ok::<
            CapabilityPlan,
            CapabilityRefusal,
        >(plan),
{
    if encoded_capability_plan(plan) is Ok {
        let version = inner_version(plan.inner);
        let inner = encoded_inner_plan(plan.inner)->Ok_0;
        let payload = capability_payload(version, inner, plan.requirements);
        let count = plan.requirements.len() as u32;
        let list = requirements_then(plan.requirements, 0, Seq::empty());
        let after_inner = u32_bytes(count) + list;
        let after_length = inner + after_inner;
        let after_version = u32_bytes(inner.len() as u32) + after_length;
        lemma_header(CAPABILITY_FORMAT_VERSION, RETURN_CAPABILITY_OPERATION, payload);
        lemma_read_u32(version, after_version);
        lemma_read_u32(inner.len() as u32, after_length);
        lemma_read_bytes(inner, after_inner);
        law_inner_plan_round_trip(plan.inner);
        assert(parsed_inner_plan(payload) == Ok::<(InnerPlan, Seq<u8>), ClientPlanError>((plan.inner, after_inner)));
        lemma_read_u32(count, list);
        lemma_requirements_round_trip(plan.requirements, 0, Seq::empty());
        assert(plan.requirements.take(0) =~= Seq::empty());
    }
}

/// An artefact that decodes is the encoding of what it decodes to.
#[verifier::rlimit(100)]
#[verifier::spinoff_prover]
pub proof fn law_capability_plan_canonical(bytes: Seq<u8>)
    ensures
        decoded_capability_plan(bytes) matches Ok(plan) ==> encoded_capability_plan(plan) == Ok::<
            Seq<u8>,
            CapabilityRefusal,
        >(bytes),
{
    if decoded_capability_plan(bytes) is Ok {
        let plan = decoded_capability_plan(bytes)->Ok_0;
        lemma_header_read(bytes, CAPABILITY_FORMAT_VERSION, RETURN_CAPABILITY_OPERATION);
        let payload = after_header(bytes, CAPABILITY_FORMAT_VERSION, RETURN_CAPABILITY_OPERATION)->Ok_0;
        lemma_u32_read(payload);
        let (version, after_version) = read_u32(payload)->Some_0;
        lemma_u32_read(after_version);
        let (length, after_length) = read_u32(after_version)->Some_0;
        lemma_bytes_read(after_length, length as nat);
        let (inner, after_inner) = read_bytes(after_length, length as nat)->Some_0;
        law_inner_plan_canonical(version, inner);
        lemma_u32_read(after_inner);
        let (count, list) = read_u32(after_inner)->Some_0;
        lemma_requirements_canonical(list, Seq::empty(), count as nat);
        let rest = parsed_requirements(list, Seq::empty(), count as nat)->Ok_0.1;
        assert(rest =~= Seq::empty());
        assert(bytes =~= capability_plan_bytes(version, inner, plan.requirements));
    }
}

impl CapabilityRequirement {
    /// Creates a requirement from one capability name and one argument source.
    pub fn new(name: String, argument: CapabilityArgumentSource) -> (requirement: CapabilityRequirement)
        ensures
            requirement@ == (Requirement { name: name@, argument: argument@ }),
    {
        CapabilityRequirement { name, argument }
    }

    /// Returns the qualified capability name.
    pub fn name(&self) -> (name: &str)
        ensures
            name@ == self@.name,
    {
        self.name.as_str()
    }

    /// Returns the declared argument source.
    pub fn argument(&self) -> (argument: &CapabilityArgumentSource)
        ensures
            argument@ == self@.argument,
    {
        &self.argument
    }
}

impl CapabilityArgumentSource {
    /// Returns the text of this argument.
    fn text(&self) -> (text: &str)
        ensures
            text@ == self@.text(),
    {
        match self {
            CapabilityArgumentSource::Text(text) => text.as_str(),
            CapabilityArgumentSource::Parameter(text) => text.as_str(),
        }
    }

    /// Returns the canonical argument tag byte.
    fn tag(&self) -> (tag: u8)
        ensures
            tag == self@.wire(),
    {
        match self {
            CapabilityArgumentSource::Text(_) => CAPABILITY_ARGUMENT_TEXT,
            CapabilityArgumentSource::Parameter(_) => CAPABILITY_ARGUMENT_PARAMETER,
        }
    }
}

impl InnerClientPlan {
    /// Returns the canonical version of the inner plan.
    pub fn format_version(&self) -> (version: u32)
        ensures
            version == inner_version(self@),
    {
        match self {
            InnerClientPlan::Boolean(_) => FORMAT_VERSION,
            InnerClientPlan::Opaque(_) => OPAQUE_FORMAT_VERSION,
            InnerClientPlan::Expression(plan) => plan.format_version(),
            InnerClientPlan::State(_) => STATE_FORMAT_VERSION,
            InnerClientPlan::Resource(_) => RESOURCE_FORMAT_VERSION,
            InnerClientPlan::Procedural(_) => PROCEDURAL_FORMAT_VERSION,
            InnerClientPlan::Action(_) => ACTION_FORMAT_VERSION,
            InnerClientPlan::ControlFlow(_) => CONTROL_FLOW_FORMAT_VERSION,
        }
    }

    /// Encodes the inner plan into its exact version bytes.
    pub fn encode(&self) -> (result: Result<Vec<u8>, ClientPlanError>)
        ensures
            viewed(result) == encoded_inner_plan(self@),
    {
        proof {
            reveal(encoded_inner_plan);
        }
        match self {
            InnerClientPlan::Boolean(plan) => Ok(plan.encode()),
            InnerClientPlan::Opaque(plan) => plan.encode(),
            InnerClientPlan::Expression(plan) => plan.encode(),
            InnerClientPlan::State(plan) => plan.encode(),
            InnerClientPlan::Resource(plan) => plan.encode(),
            InnerClientPlan::Procedural(plan) => plan.encode(),
            InnerClientPlan::Action(plan) => plan.encode(),
            InnerClientPlan::ControlFlow(plan) => plan.encode(),
        }
    }

    /// Decodes an inner plan of a declared version.
    fn decode(version: u32, bytes: &[u8]) -> (result: Result<InnerClientPlan, ClientPlanError>)
        ensures
            viewed(result) == decoded_inner_plan(version, bytes@),
    {
        proof {
            reveal(decoded_inner_plan);
        }
        match version {
            FORMAT_VERSION => Ok(InnerClientPlan::Boolean(ClientPlan::decode(bytes)?)),
            OPAQUE_FORMAT_VERSION => Ok(InnerClientPlan::Opaque(OpaqueClientPlan::decode(bytes)?)),
            EXPRESSION_FORMAT_VERSION | INSPECT_FORMAT_VERSION => Ok(
                InnerClientPlan::Expression(ExpressionClientPlan::decode(bytes)?),
            ),
            STATE_FORMAT_VERSION => Ok(InnerClientPlan::State(StateClientPlan::decode(bytes)?)),
            RESOURCE_FORMAT_VERSION => Ok(InnerClientPlan::Resource(ResourceClientPlan::decode(bytes)?)),
            PROCEDURAL_FORMAT_VERSION => Ok(InnerClientPlan::Procedural(ProceduralClientPlan::decode(bytes)?)),
            ACTION_FORMAT_VERSION => Ok(InnerClientPlan::Action(ActionClientPlan::decode(bytes)?)),
            CONTROL_FLOW_FORMAT_VERSION => Ok(InnerClientPlan::ControlFlow(ControlFlowClientPlan::decode(bytes)?)),
            version => Err(ClientPlanError::UnsupportedInnerVersion(version)),
        }
    }
}

/// Tells whether one of the first `count` requirements has a name.
fn requires_name(requirements: &Vec<CapabilityRequirement>, count: usize, name: &String) -> (found: bool)
    requires
        count <= requirements.len(),
    ensures
        found == name_required(requirements_of(requirements@), count as int, name@),
{
    let ghost list = requirements_of(requirements@);
    let mut index: usize = 0;
    while index < count
        invariant
            index <= count <= requirements.len(),
            list == requirements_of(requirements@),
            forall|i: int| 0 <= i < index ==> (#[trigger] list[i]).name != name@,
        decreases count - index,
    {
        assert(list[index as int] == requirements[index as int]@);
        if requirements[index].name == *name {
            return true;
        }
        index = index + 1;
    }
    false
}

/// Writes a length-prefixed text.
fn put_requirement_text(writer: &mut Writer, text: &str)
    ensures
        forall|rest: Seq<u8>| final(writer)@ + rest == old(writer)@ + #[trigger] text_then(text@, rest),
{
    let bytes = text.as_bytes();
    #[verifier::truncate]
    let length: u32 = bytes.len() as u32;
    writer.u32(length);
    writer.bytes(bytes);
    assert forall|rest: Seq<u8>| writer@ + rest == old(writer)@ + #[trigger] text_then(text@, rest) by {
        assert(writer@ + rest =~= old(writer)@ + text_then(text@, rest));
    }
}

/// Writes a requirement.
fn put_requirement(writer: &mut Writer, requirement: &CapabilityRequirement)
    ensures
        forall|rest: Seq<u8>| final(writer)@ + rest == old(writer)@ + #[trigger] requirement_then(requirement@, rest),
{
    put_requirement_text(writer, requirement.name.as_str());
    let ghost before_tag = writer@;
    writer.u8(requirement.argument.tag());
    let ghost before_argument = writer@;
    put_requirement_text(writer, requirement.argument.text());
    assert forall|rest: Seq<u8>| writer@ + rest == old(writer)@ + #[trigger] requirement_then(requirement@, rest) by {
        let argument = text_then(requirement@.argument.text(), rest);
        let tagged = seq![requirement@.argument.wire()] + argument;
        assert(writer@ + rest == before_argument + argument);
        assert(before_argument + argument =~= before_tag + tagged);
        assert(before_tag + tagged == old(writer)@ + text_then(requirement@.name, tagged));
    }
}

/// Reads a length-prefixed text of a requirement.
fn decode_requirement_text(reader: &mut Reader, part: RequirementText) -> (result: Result<String, ClientPlanError>)
    ensures
        match parsed_requirement_text(old(reader)@, part) {
            Ok((text, rest)) => result is Ok && result->Ok_0@ == text && final(reader)@ == rest,
            Err(error) => result == Err::<String, ClientPlanError>(error),
        },
{
    let length: u32 = take_u32(reader)?;
    part.validate_length(length as usize)?;
    let bytes = take_bytes(reader, length as usize)?;
    match decode_text(bytes) {
        Some(text) => Ok(text),
        None => Err(
            match part {
                RequirementText::Name => ClientPlanError::InvalidCapabilityNameUtf8,
                RequirementText::Argument => ClientPlanError::InvalidCapabilityArgumentUtf8,
            },
        ),
    }
}

/// Reads the requirement that follows `done`.
fn decode_requirement(reader: &mut Reader, done: &Vec<CapabilityRequirement>) -> (result: Result<
    CapabilityRequirement,
    ClientPlanError,
>)
    ensures
        match parsed_requirement(old(reader)@, requirements_of(done@)) {
            Ok((requirement, rest)) => result is Ok && result->Ok_0@ == requirement && final(reader)@ == rest,
            Err(refusal) => result is Err && result->Err_0.refusal() == refusal,
        },
{
    let name = decode_requirement_text(reader, RequirementText::Name)?;
    if requires_name(done, done.len(), &name) {
        return Err(ClientPlanError::DuplicateCapabilityName(name));
    }
    let tag: u8 = take_u8(reader)?;
    let text = decode_requirement_text(reader, RequirementText::Argument)?;
    match tag {
        CAPABILITY_ARGUMENT_TEXT => Ok(CapabilityRequirement::new(name, CapabilityArgumentSource::Text(text))),
        CAPABILITY_ARGUMENT_PARAMETER => Ok(
            CapabilityRequirement::new(name, CapabilityArgumentSource::Parameter(text)),
        ),
        tag => Err(ClientPlanError::InvalidCapabilityArgumentTag(tag)),
    }
}

/// Reads the inner plan behind the header.
fn decode_inner_plan(reader: &mut Reader) -> (result: Result<InnerClientPlan, ClientPlanError>)
    ensures
        match parsed_inner_plan(old(reader)@) {
            Ok((inner, rest)) => result is Ok && result->Ok_0@ == inner && final(reader)@ == rest,
            Err(error) => result == Err::<InnerClientPlan, ClientPlanError>(error),
        },
{
    let declared: u32 = take_u32(reader)?;
    let length: u32 = take_u32(reader)?;
    let bytes = take_bytes(reader, length as usize)?;
    let inner = InnerClientPlan::decode(declared, bytes)?;
    let actual: u32 = inner.format_version();
    if declared != actual {
        return Err(ClientPlanError::InnerVersionMismatch { declared, actual });
    }
    Ok(inner)
}

/// Reads the requirements behind the inner plan.
fn decode_requirements(reader: &mut Reader) -> (result: Result<Vec<CapabilityRequirement>, ClientPlanError>)
    ensures
        match parsed_requirement_list(old(reader)@) {
            Ok((requirements, rest)) => {
                &&& result is Ok
                &&& requirements_of(result->Ok_0@) == requirements
                &&& final(reader)@ == rest
            },
            Err(refusal) => result is Err && result->Err_0.refusal() == refusal,
        },
{
    let count: u32 = take_u32(reader)?;
    if count == 0 {
        return Err(ClientPlanError::InvalidCapabilityCount { actual: 0 });
    }
    let total: usize = count as usize;
    if total > MAX_CAPABILITY_REQUIREMENTS {
        return Err(ClientPlanError::CapabilityLimitExceeded { limit: MAX_CAPABILITY_REQUIREMENTS });
    }
    let mut requirements: Vec<CapabilityRequirement> = Vec::with_capacity(total);
    assert(requirements_of(requirements@) =~= Seq::empty());
    while requirements.len() < total
        invariant
            requirements.len() <= total,
            parsed_requirement_list(old(reader)@) == parsed_requirements(
                reader@,
                requirements_of(requirements@),
                total as nat,
            ),
        decreases total - requirements.len(),
    {
        let ghost done = requirements_of(requirements@);
        let requirement = decode_requirement(reader, &requirements)?;
        let ghost value = requirement@;
        requirements.push(requirement);
        assert(requirements_of(requirements@) =~= done.push(value));
    }
    Ok(requirements)
}

impl CapabilityClientPlan {
    /// Creates a checked capability plan from one inner plan and the ordered
    /// capability requirements.
    pub fn new(inner_plan: InnerClientPlan, requirements: Vec<CapabilityRequirement>) -> (plan: CapabilityClientPlan)
        ensures
            plan@ == (CapabilityPlan { inner: inner_plan@, requirements: requirements_of(requirements@) }),
    {
        CapabilityClientPlan { inner_plan, requirements }
    }

    /// Returns the canonical artefact version for this plan.
    pub fn format_version(&self) -> (version: u32)
        ensures
            version == CAPABILITY_FORMAT_VERSION,
    {
        CAPABILITY_FORMAT_VERSION
    }

    /// Returns the canonical version of the carried inner plan.
    pub fn inner_plan_version(&self) -> (version: u32)
        ensures
            version == inner_version(self@.inner),
    {
        self.inner_plan.format_version()
    }

    /// Returns the decoded inner client plan.
    pub fn inner_plan(&self) -> (inner: &InnerClientPlan)
        ensures
            inner@ == self@.inner,
    {
        &self.inner_plan
    }

    /// Returns the capability requirements in declaration order.
    pub fn requirements(&self) -> (requirements: &[CapabilityRequirement])
        ensures
            requirements_of(requirements@) == self@.requirements,
    {
        self.requirements.as_slice()
    }

    /// Refuses requirements that break the rules on their texts.
    fn validate_requirements(&self) -> (result: Result<(), ClientPlanError>)
        ensures
            match requirements_refusal(self@.requirements, 0) {
                Some(refusal) => result is Err && result->Err_0.refusal() == refusal,
                None => result is Ok,
            },
    {
        let mut index: usize = 0;
        while index < self.requirements.len()
            invariant
                index <= self.requirements.len(),
                requirements_refusal(self@.requirements, 0) == requirements_refusal(self@.requirements, index as nat),
            decreases self.requirements.len() - index,
        {
            let requirement = &self.requirements[index];
            assert(self@.requirements[index as int] == requirement@);
            RequirementText::Name.validate_length(requirement.name.as_str().as_bytes().len())?;
            if requires_name(&self.requirements, index, &requirement.name) {
                return Err(ClientPlanError::DuplicateCapabilityName(requirement.name.clone()));
            }
            RequirementText::Argument.validate_length(requirement.argument.text().as_bytes().len())?;
            index = index + 1;
        }
        Ok(())
    }

    /// Encodes this plan into its exact version-5 bytes.
    pub fn encode(&self) -> (result: Result<Vec<u8>, ClientPlanError>)
        ensures
            agrees(result, encoded_capability_plan(self@)),
    {
        if self.requirements.len() == 0 {
            return Err(ClientPlanError::InvalidCapabilityCount { actual: 0 });
        }
        if self.requirements.len() > MAX_CAPABILITY_REQUIREMENTS {
            return Err(ClientPlanError::CapabilityLimitExceeded { limit: MAX_CAPABILITY_REQUIREMENTS });
        }
        self.validate_requirements()?;
        let inner = self.inner_plan.encode()?;
        let mut writer = Writer::new();
        put_header(&mut writer, CAPABILITY_FORMAT_VERSION, RETURN_CAPABILITY_OPERATION);
        writer.u32(self.inner_plan.format_version());
        #[verifier::truncate]
        let inner_length: u32 = inner.len() as u32;
        writer.u32(inner_length);
        writer.bytes(inner.as_slice());
        writer.u32(self.requirements.len() as u32);
        let ghost none = Seq::<u8>::empty();
        let ghost list = self@.requirements;
        let ghost start = writer@;
        let mut index: usize = 0;
        while index < self.requirements.len()
            invariant
                index <= self.requirements.len(),
                none == Seq::<u8>::empty(),
                list == self@.requirements,
                writer@ + requirements_then(list, index as nat, none) == start + requirements_then(list, 0, none),
            decreases self.requirements.len() - index,
        {
            assert(list[index as int] == self.requirements[index as int]@);
            let ghost before = writer@;
            put_requirement(&mut writer, &self.requirements[index]);
            assert(writer@ + requirements_then(list, (index + 1) as nat, none) == before + requirement_then(
                list[index as int],
                requirements_then(list, (index + 1) as nat, none),
            ));
            index = index + 1;
        }
        assert(writer@ =~= writer@ + requirements_then(list, index as nat, none));
        assert(writer@ =~= capability_plan_bytes(inner_version(self@.inner), inner@, list));
        finish_artifact(writer)
    }

    /// Decodes exactly one canonical version-5 capability client-plan.
    pub fn decode(bytes: &[u8]) -> (result: Result<CapabilityClientPlan, ClientPlanError>)
        ensures
            agrees(result, decoded_capability_plan(bytes@)),
    {
        validate_artifact_size(bytes.len())?;
        let mut reader = Reader::new(bytes);
        take_header(&mut reader, CAPABILITY_FORMAT_VERSION, RETURN_CAPABILITY_OPERATION)?;
        let inner_plan = decode_inner_plan(&mut reader)?;
        let requirements = decode_requirements(&mut reader)?;
        require_finished(&reader)?;
        Ok(CapabilityClientPlan::new(inner_plan, requirements))
    }
}

} // verus!
