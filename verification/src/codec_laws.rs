//! What the public encoders and decoders promise, call by call.
//!
//! The laws speak of what was given to a call and what it returned. Encoding
//! succeeds on exactly the plans that a format carries, decoding returns only
//! such plans, and each undoes the other.

use vstd::prelude::*;
use vstd::utf8::encode_utf8;

use crate::big_endian::{be_value, lemma_be_bytes_len, lemma_be_value_of_bytes, lemma_radix_powers};
use crate::client_plan::acceptance_laws::{
    action_plan_stands, capability_stands, expression_stands, law_action_plan_accepted_exactly,
    law_capability_plan_accepted_exactly, law_expression_plan_accepted_exactly, law_opaque_plan_accepted_exactly,
    law_resource_plan_accepted_exactly, law_state_plan_accepted_exactly, resource_plan_stands, state_stands,
};
use crate::client_plan::action::{action_plan_bytes, law_action_plan_canonical, law_action_plan_round_trip};
use crate::client_plan::boolean::{law_boolean_plan_canonical, law_boolean_plan_round_trip};
use crate::client_plan::capability::{
    capability_plan_bytes, encoded_inner_plan, inner_version, law_capability_plan_canonical,
    law_capability_plan_round_trip,
};
use crate::client_plan::control_flow::{flow_plan_bytes, law_flow_plan_canonical, law_flow_plan_round_trip};
use crate::client_plan::expression_plan::{
    expression_plan_bytes, law_expression_plan_canonical, law_expression_plan_round_trip,
};
use crate::client_plan::flow_laws::{flow_stands, law_flow_plan_accepted_exactly};
use crate::client_plan::opaque::{law_opaque_plan_canonical, law_opaque_plan_round_trip};
use crate::client_plan::procedural::{
    law_procedural_plan_canonical, law_procedural_plan_round_trip, procedural_plan_bytes,
};
use crate::client_plan::procedural_laws::{law_procedural_plan_accepted_exactly, procedural_stands};
use crate::client_plan::resource::{law_resource_plan_canonical, law_resource_plan_round_trip, resource_plan_bytes};
use crate::client_plan::state::{law_state_plan_canonical, law_state_plan_round_trip, state_plan_bytes};
use crate::client_plan::{
    ActionClientPlan, CapabilityClientPlan, ClientPlan, ClientPlanError, ControlFlowClientPlan, ExpressionClientPlan,
    OpaqueClientPlan, ProceduralClientPlan, ResourceClientPlan, StateClientPlan,
};
use crate::constant_expression::{
    constant_bytes, law_constant_canonical, law_constant_round_trip, ConstantExpression, ConstantExpressionError,
    ConstantValue,
};
use crate::identity::{identity_bytes, ParameterId, TypeId};
use crate::parameter_artifact::parameter_bytes;
use crate::server_csv_encode::{law_csv_plan_canonical, law_csv_plan_round_trip, CsvEncodePlan, CsvEncodePlanError};
use crate::server_json_encode::{
    law_json_plan_canonical, law_json_plan_round_trip, JsonEncodePlan, JsonEncodePlanError,
};
use crate::server_mutation_plan::acceptance_laws::{
    law_plan_accepted_exactly, law_record_built_exactly, makes_record, plan_stands,
};
use crate::server_mutation_plan::codec::mutation_plan_bytes;
use crate::server_mutation_plan::delete::{delete_plan_bytes, law_delete_plan_canonical, law_delete_plan_round_trip};
use crate::server_mutation_plan::laws::{law_mutation_plan_canonical, law_mutation_plan_round_trip};
use crate::server_mutation_plan::model::{MutationExpression, RecordFieldExpression};
use crate::server_mutation_plan::{ServerDeletePlan, ServerMutationPlan, ServerMutationPlanError};

verus! {

/// Expression plans: see [`expression_stands`] for the condition.
pub proof fn law_expression_codec(
    plan: ExpressionClientPlan,
    bytes: &[u8],
    encoded: Result<Vec<u8>, ClientPlanError>,
    decoded: Result<ExpressionClientPlan, ClientPlanError>,
)
    requires
        call_ensures(ExpressionClientPlan::encode, (&plan,), encoded),
        call_ensures(ExpressionClientPlan::decode, (bytes,), decoded),
    ensures
        encoded is Ok <==> expression_stands(plan@) && expression_plan_bytes(plan@).len() <= 0x100_0000,
        decoded is Ok ==> expression_stands(decoded->Ok_0@) && expression_plan_bytes(decoded->Ok_0@).len()
            <= 0x100_0000,
        encoded is Ok && encoded->Ok_0@ == bytes@ ==> decoded is Ok && decoded->Ok_0@ == plan@,
        decoded is Ok && decoded->Ok_0@ == plan@ ==> encoded is Ok && encoded->Ok_0@ == bytes@,
        bytes@.len() > 0x100_0000 ==> decoded is Err,
{
    law_expression_plan_round_trip(plan@);
    law_expression_plan_canonical(bytes@);
    law_expression_plan_accepted_exactly(plan@);
    if decoded is Ok {
        law_expression_plan_accepted_exactly(decoded->Ok_0@);
    }
}

/// State plans: see [`state_stands`] for the condition.
pub proof fn law_state_codec(
    plan: StateClientPlan,
    bytes: &[u8],
    encoded: Result<Vec<u8>, ClientPlanError>,
    decoded: Result<StateClientPlan, ClientPlanError>,
)
    requires
        call_ensures(StateClientPlan::encode, (&plan,), encoded),
        call_ensures(StateClientPlan::decode, (bytes,), decoded),
    ensures
        encoded is Ok <==> state_stands(plan@) && state_plan_bytes(plan@).len() <= 0x100_0000,
        decoded is Ok ==> state_stands(decoded->Ok_0@) && state_plan_bytes(decoded->Ok_0@).len() <= 0x100_0000,
        encoded is Ok && encoded->Ok_0@ == bytes@ ==> decoded is Ok && decoded->Ok_0@ == plan@,
        decoded is Ok && decoded->Ok_0@ == plan@ ==> encoded is Ok && encoded->Ok_0@ == bytes@,
        bytes@.len() > 0x100_0000 ==> decoded is Err,
{
    law_state_plan_round_trip(plan@);
    law_state_plan_canonical(bytes@);
    law_state_plan_accepted_exactly(plan@);
    if decoded is Ok {
        law_state_plan_accepted_exactly(decoded->Ok_0@);
    }
}

/// Procedural plans: see [`procedural_stands`] for the condition.
pub proof fn law_procedural_codec(
    plan: ProceduralClientPlan,
    bytes: &[u8],
    encoded: Result<Vec<u8>, ClientPlanError>,
    decoded: Result<ProceduralClientPlan, ClientPlanError>,
)
    requires
        call_ensures(ProceduralClientPlan::encode, (&plan,), encoded),
        call_ensures(ProceduralClientPlan::decode, (bytes,), decoded),
    ensures
        encoded is Ok <==> procedural_stands(plan@) && procedural_plan_bytes(plan@).len() <= 0x100_0000,
        decoded is Ok ==> procedural_stands(decoded->Ok_0@) && procedural_plan_bytes(decoded->Ok_0@).len()
            <= 0x100_0000,
        encoded is Ok && encoded->Ok_0@ == bytes@ ==> decoded is Ok && decoded->Ok_0@ == plan@,
        decoded is Ok && decoded->Ok_0@ == plan@ ==> encoded is Ok && encoded->Ok_0@ == bytes@,
        bytes@.len() > 0x100_0000 ==> decoded is Err,
{
    law_procedural_plan_round_trip(plan@);
    law_procedural_plan_canonical(bytes@);
    law_procedural_plan_accepted_exactly(plan@);
    if decoded is Ok {
        law_procedural_plan_accepted_exactly(decoded->Ok_0@);
    }
}

/// Programmable plans: see [`flow_stands`] for the condition.
pub proof fn law_flow_codec(
    plan: ControlFlowClientPlan,
    bytes: &[u8],
    encoded: Result<Vec<u8>, ClientPlanError>,
    decoded: Result<ControlFlowClientPlan, ClientPlanError>,
)
    requires
        call_ensures(ControlFlowClientPlan::encode, (&plan,), encoded),
        call_ensures(ControlFlowClientPlan::decode, (bytes,), decoded),
    ensures
        encoded is Ok <==> flow_stands(plan@) && flow_plan_bytes(plan@).len() <= 0x100_0000,
        decoded is Ok ==> flow_stands(decoded->Ok_0@) && flow_plan_bytes(decoded->Ok_0@).len() <= 0x100_0000,
        encoded is Ok && encoded->Ok_0@ == bytes@ ==> decoded is Ok && decoded->Ok_0@ == plan@,
        decoded is Ok && decoded->Ok_0@ == plan@ ==> encoded is Ok && encoded->Ok_0@ == bytes@,
        bytes@.len() > 0x100_0000 ==> decoded is Err,
{
    law_flow_plan_round_trip(plan@);
    law_flow_plan_canonical(bytes@);
    law_flow_plan_accepted_exactly(plan@);
    if decoded is Ok {
        law_flow_plan_accepted_exactly(decoded->Ok_0@);
    }
}

/// INSERT and UPDATE plans: see [`plan_stands`] for the condition.
pub proof fn law_mutation_codec(
    plan: ServerMutationPlan,
    bytes: &[u8],
    encoded: Result<Vec<u8>, ServerMutationPlanError>,
    decoded: Result<ServerMutationPlan, ServerMutationPlanError>,
)
    requires
        call_ensures(ServerMutationPlan::encode, (&plan,), encoded),
        call_ensures(ServerMutationPlan::decode, (bytes,), decoded),
    ensures
        encoded is Ok <==> plan_stands(plan@) && mutation_plan_bytes(plan@).len() <= 0x100_0000,
        decoded is Ok ==> plan_stands(decoded->Ok_0@) && mutation_plan_bytes(decoded->Ok_0@).len() <= 0x100_0000,
        encoded is Ok && encoded->Ok_0@ == bytes@ ==> decoded is Ok && decoded->Ok_0@ == plan@,
        decoded is Ok && decoded->Ok_0@ == plan@ ==> encoded is Ok && encoded->Ok_0@ == bytes@,
        bytes@.len() > 0x100_0000 ==> decoded is Err,
{
    law_mutation_plan_round_trip(plan@);
    law_mutation_plan_canonical(bytes@);
    law_plan_accepted_exactly(plan@);
    if decoded is Ok {
        law_plan_accepted_exactly(decoded->Ok_0@);
    }
}

/// Opaque plans are encoded where their payload leaves room for what stands
/// around it.
pub proof fn law_opaque_codec(
    plan: OpaqueClientPlan,
    bytes: &[u8],
    encoded: Result<Vec<u8>, ClientPlanError>,
    decoded: Result<OpaqueClientPlan, ClientPlanError>,
)
    requires
        call_ensures(OpaqueClientPlan::encode, (&plan,), encoded),
        call_ensures(OpaqueClientPlan::decode, (bytes,), decoded),
    ensures
        encoded is Ok <==> plan@.payload.len() + 33 <= 0x100_0000,
        decoded is Ok ==> decoded->Ok_0@.payload.len() + 33 <= 0x100_0000,
        encoded is Ok && encoded->Ok_0@ == bytes@ ==> decoded is Ok && decoded->Ok_0@ == plan@,
        decoded is Ok && decoded->Ok_0@ == plan@ ==> encoded is Ok && encoded->Ok_0@ == bytes@,
        bytes@.len() > 0x100_0000 ==> decoded is Err,
{
    law_opaque_plan_round_trip(plan@);
    law_opaque_plan_canonical(bytes@);
    law_opaque_plan_accepted_exactly(plan@);
    if decoded is Ok {
        law_opaque_plan_accepted_exactly(decoded->Ok_0@);
    }
}

/// Resource plans: see [`resource_plan_stands`] for the condition.
pub proof fn law_resource_codec(
    plan: ResourceClientPlan,
    bytes: &[u8],
    encoded: Result<Vec<u8>, ClientPlanError>,
    decoded: Result<ResourceClientPlan, ClientPlanError>,
)
    requires
        call_ensures(ResourceClientPlan::encode, (&plan,), encoded),
        call_ensures(ResourceClientPlan::decode, (bytes,), decoded),
    ensures
        encoded is Ok <==> resource_plan_stands(plan@) && resource_plan_bytes(plan@).len() <= 0x100_0000,
        decoded is Ok ==> resource_plan_stands(decoded->Ok_0@) && resource_plan_bytes(decoded->Ok_0@).len()
            <= 0x100_0000,
        encoded is Ok && encoded->Ok_0@ == bytes@ ==> decoded is Ok && decoded->Ok_0@ == plan@,
        decoded is Ok && decoded->Ok_0@ == plan@ ==> encoded is Ok && encoded->Ok_0@ == bytes@,
        bytes@.len() > 0x100_0000 ==> decoded is Err,
{
    law_resource_plan_round_trip(plan@);
    law_resource_plan_canonical(bytes@);
    law_resource_plan_accepted_exactly(plan@);
    if decoded is Ok {
        law_resource_plan_accepted_exactly(decoded->Ok_0@);
    }
}

/// Action plans: see [`action_plan_stands`] for the condition.
pub proof fn law_action_codec(
    plan: ActionClientPlan,
    bytes: &[u8],
    encoded: Result<Vec<u8>, ClientPlanError>,
    decoded: Result<ActionClientPlan, ClientPlanError>,
)
    requires
        call_ensures(ActionClientPlan::encode, (&plan,), encoded),
        call_ensures(ActionClientPlan::decode, (bytes,), decoded),
    ensures
        encoded is Ok <==> action_plan_stands(plan@) && action_plan_bytes(plan@).len() <= 0x100_0000,
        decoded is Ok ==> action_plan_stands(decoded->Ok_0@) && action_plan_bytes(decoded->Ok_0@).len() <= 0x100_0000,
        encoded is Ok && encoded->Ok_0@ == bytes@ ==> decoded is Ok && decoded->Ok_0@ == plan@,
        decoded is Ok && decoded->Ok_0@ == plan@ ==> encoded is Ok && encoded->Ok_0@ == bytes@,
        bytes@.len() > 0x100_0000 ==> decoded is Err,
{
    law_action_plan_round_trip(plan@);
    law_action_plan_canonical(bytes@);
    law_action_plan_accepted_exactly(plan@);
    if decoded is Ok {
        law_action_plan_accepted_exactly(decoded->Ok_0@);
    }
}

/// Capability plans: see [`capability_stands`] for the condition.
pub proof fn law_capability_codec(
    plan: CapabilityClientPlan,
    bytes: &[u8],
    encoded: Result<Vec<u8>, ClientPlanError>,
    decoded: Result<CapabilityClientPlan, ClientPlanError>,
)
    requires
        call_ensures(CapabilityClientPlan::encode, (&plan,), encoded),
        call_ensures(CapabilityClientPlan::decode, (bytes,), decoded),
    ensures
        encoded is Ok <==> capability_stands(plan@) && capability_plan_bytes(
            inner_version(plan@.inner),
            encoded_inner_plan(plan@.inner)->Ok_0,
            plan@.requirements,
        ).len() <= 0x100_0000,
        decoded is Ok ==> capability_stands(decoded->Ok_0@),
        encoded is Ok && encoded->Ok_0@ == bytes@ ==> decoded is Ok && decoded->Ok_0@ == plan@,
        decoded is Ok && decoded->Ok_0@ == plan@ ==> encoded is Ok && encoded->Ok_0@ == bytes@,
        bytes@.len() > 0x100_0000 ==> decoded is Err,
{
    law_capability_plan_round_trip(plan@);
    law_capability_plan_canonical(bytes@);
    law_capability_plan_accepted_exactly(plan@);
    if decoded is Ok {
        law_capability_plan_accepted_exactly(decoded->Ok_0@);
    }
}

/// Boolean plans: every value is encoded, in 14 bytes, and each call undoes the
/// other.
pub proof fn law_boolean_codec(
    plan: ClientPlan,
    bytes: &[u8],
    encoded: Vec<u8>,
    decoded: Result<ClientPlan, ClientPlanError>,
)
    requires
        call_ensures(ClientPlan::encode, (&plan,), encoded),
        call_ensures(ClientPlan::decode, (bytes,), decoded),
    ensures
        encoded@.len() == 14,
        encoded@[13] == (if plan@ {
            1u8
        } else {
            0u8
        }),
        encoded@ == bytes@ <==> decoded is Ok && decoded->Ok_0@ == plan@,
{
    broadcast use lemma_be_bytes_len;

    law_boolean_plan_round_trip(plan@);
    law_boolean_plan_canonical(bytes@);
}

/// A record constructor is built exactly where its fields are distinct fields of
/// the record type, each of a type that it may have.
pub proof fn law_record_constructor_built(
    record_type: TypeId,
    fields: Vec<RecordFieldExpression>,
    result: Result<MutationExpression, ServerMutationPlanError>,
)
    requires
        call_ensures(MutationExpression::record_constructor, (record_type, fields), result),
    ensures
        result is Ok <==> makes_record(fields@, record_type),
{
    law_record_built_exactly(record_type, fields@);
}

/// The number that the bytes from `start` to `end` of an artefact spell.
pub open spec fn number_at(bytes: Seq<u8>, start: int, end: int) -> nat {
    be_value(bytes.subrange(start, end))
}

/// Sixteen bytes of an identity spell it.
pub proof fn lemma_identity_number(value: u128)
    ensures
        be_value(identity_bytes(value)) == value,
        identity_bytes(value).len() == 16,
{
    broadcast use lemma_be_bytes_len;

    lemma_radix_powers();
    lemma_be_value_of_bytes(value as nat, 16);
}

/// Four bytes of a number spell it.
pub proof fn lemma_short_number(value: u32)
    ensures
        be_value(crate::artifact_codec::u32_bytes(value)) == value,
        crate::artifact_codec::u32_bytes(value).len() == 4,
{
    broadcast use lemma_be_bytes_len;

    lemma_radix_powers();
    lemma_be_value_of_bytes(value as nat, 4);
}

/// DELETE plans: every plan is encoded, in 61 bytes that hold the magic, the
/// version 3, the operation 3, the target, and the owner and identity of the
/// selecting parameter, and each call undoes the other.
pub proof fn law_delete_codec(
    plan: ServerDeletePlan,
    bytes: &[u8],
    encoded: Result<Vec<u8>, ServerMutationPlanError>,
    decoded: Result<ServerDeletePlan, ServerMutationPlanError>,
)
    requires
        call_ensures(ServerDeletePlan::encode, (&plan,), encoded),
        call_ensures(ServerDeletePlan::decode, (bytes,), decoded),
    ensures
        encoded is Ok,
        encoded->Ok_0@.len() == 61,
        encoded->Ok_0@.take(8) == seq![79u8, 82u8, 78u8, 65u8, 77u8, 80u8, 0u8, 0u8],
        number_at(encoded->Ok_0@, 8, 12) == 3,
        encoded->Ok_0@[12] == 3,
        number_at(encoded->Ok_0@, 13, 29) == plan.target.0,
        number_at(encoded->Ok_0@, 29, 45) == plan.selector.owner.0,
        number_at(encoded->Ok_0@, 45, 61) == plan.selector.parameter.0,
        encoded->Ok_0@ == bytes@ <==> decoded == Ok::<ServerDeletePlan, ServerMutationPlanError>(plan),
{
    law_delete_plan_round_trip(plan);
    law_delete_plan_canonical(bytes@);
    lemma_identity_number(plan.target.0);
    lemma_identity_number(plan.selector.owner.0);
    lemma_identity_number(plan.selector.parameter.0);
    lemma_short_number(3);
    let whole = delete_plan_bytes(plan);
    assert(whole.take(8) =~= seq![79u8, 82u8, 78u8, 65u8, 77u8, 80u8, 0u8, 0u8]);
    assert(whole.subrange(8, 12) =~= crate::artifact_codec::u32_bytes(3));
    assert(whole.subrange(13, 29) =~= identity_bytes(plan.target.0));
    assert(whole.subrange(29, 45) =~= identity_bytes(plan.selector.owner.0));
    assert(whole.subrange(45, 61) =~= identity_bytes(plan.selector.parameter.0));
}

/// Tells whether an artefact of 44 bytes pins a parameter and a type behind a
/// magic and the version 1.
pub open spec fn pins(bytes: Seq<u8>, magic: Seq<u8>, parameter: ParameterId, value_type: TypeId) -> bool {
    &&& bytes.len() == 44
    &&& bytes.take(8) == magic
    &&& number_at(bytes, 8, 12) == 1
    &&& number_at(bytes, 12, 28) == parameter.0
    &&& number_at(bytes, 28, 44) == value_type.0
}

/// The artefact of a parameter pins it and its type.
proof fn lemma_pins(magic: Seq<u8>, parameter: ParameterId, value_type: TypeId)
    requires
        magic.len() == 8,
    ensures
        pins(parameter_bytes(magic, 1, parameter, value_type), magic, parameter, value_type),
{
    let whole = parameter_bytes(magic, 1, parameter, value_type);
    lemma_identity_number(parameter.0);
    lemma_identity_number(value_type.0);
    lemma_short_number(1);
    assert(whole.take(8) =~= magic);
    assert(whole.subrange(8, 12) =~= crate::artifact_codec::u32_bytes(1));
    assert(whole.subrange(12, 28) =~= identity_bytes(parameter.0));
    assert(whole.subrange(28, 44) =~= identity_bytes(value_type.0));
}

/// JSON plans: every plan is encoded, in 44 bytes that pin its parameter and
/// type, and is decoded only against those.
pub proof fn law_json_codec(
    plan: JsonEncodePlan,
    bytes: &[u8],
    expected_parameter: ParameterId,
    expected_type: TypeId,
    encoded: Result<Vec<u8>, JsonEncodePlanError>,
    decoded: Result<JsonEncodePlan, JsonEncodePlanError>,
)
    requires
        call_ensures(JsonEncodePlan::encode, (&plan,), encoded),
        call_ensures(JsonEncodePlan::decode, (bytes, expected_parameter, expected_type), decoded),
    ensures
        encoded is Ok,
        pins(
            encoded->Ok_0@,
            seq![79u8, 82u8, 78u8, 65u8, 74u8, 69u8, 0u8, 0u8],
            plan.parameter,
            plan.value_type,
        ),
        decoded is Ok ==> {
            &&& decoded->Ok_0 == (JsonEncodePlan { parameter: expected_parameter, value_type: expected_type })
            &&& pins(
                bytes@,
                seq![79u8, 82u8, 78u8, 65u8, 74u8, 69u8, 0u8, 0u8],
                expected_parameter,
                expected_type,
            )
        },
        encoded->Ok_0@ == bytes@ && plan.parameter == expected_parameter && plan.value_type == expected_type
            ==> decoded == Ok::<JsonEncodePlan, JsonEncodePlanError>(plan),
{
    let magic = crate::server_json_encode::MAGIC@;
    assert(magic =~= seq![79u8, 82u8, 78u8, 65u8, 74u8, 69u8, 0u8, 0u8]);
    law_json_plan_round_trip(plan);
    law_json_plan_canonical(bytes@, expected_parameter, expected_type);
    lemma_pins(magic, plan.parameter, plan.value_type);
    lemma_pins(magic, expected_parameter, expected_type);
}

/// CSV plans: every plan is encoded, in 44 bytes that pin its parameter and
/// type, and is decoded only against those.
pub proof fn law_csv_codec(
    plan: CsvEncodePlan,
    bytes: &[u8],
    expected_parameter: ParameterId,
    expected_type: TypeId,
    encoded: Result<Vec<u8>, CsvEncodePlanError>,
    decoded: Result<CsvEncodePlan, CsvEncodePlanError>,
)
    requires
        call_ensures(CsvEncodePlan::encode, (&plan,), encoded),
        call_ensures(CsvEncodePlan::decode, (bytes, expected_parameter, expected_type), decoded),
    ensures
        encoded is Ok,
        pins(
            encoded->Ok_0@,
            seq![79u8, 82u8, 78u8, 65u8, 67u8, 83u8, 86u8, 0u8],
            plan.parameter,
            plan.value_type,
        ),
        decoded is Ok ==> {
            &&& decoded->Ok_0 == (CsvEncodePlan { parameter: expected_parameter, value_type: expected_type })
            &&& pins(
                bytes@,
                seq![79u8, 82u8, 78u8, 65u8, 67u8, 83u8, 86u8, 0u8],
                expected_parameter,
                expected_type,
            )
        },
        encoded->Ok_0@ == bytes@ && plan.parameter == expected_parameter && plan.value_type == expected_type
            ==> decoded == Ok::<CsvEncodePlan, CsvEncodePlanError>(plan),
{
    let magic = crate::server_csv_encode::MAGIC@;
    assert(magic =~= seq![79u8, 82u8, 78u8, 65u8, 67u8, 83u8, 86u8, 0u8]);
    law_csv_plan_round_trip(plan);
    law_csv_plan_canonical(bytes@, expected_parameter, expected_type);
    lemma_pins(magic, plan.parameter, plan.value_type);
    lemma_pins(magic, expected_parameter, expected_type);
}

/// Constants: every constant but an oversized text is encoded, behind the magic,
/// the version 1 and the tag of its kind, and each call undoes the other.
pub proof fn law_constant_codec(
    constant: ConstantExpression,
    bytes: &[u8],
    encoded: Result<Vec<u8>, ConstantExpressionError>,
    decoded: Result<ConstantExpression, ConstantExpressionError>,
)
    requires
        call_ensures(ConstantExpression::encode, (&constant,), encoded),
        call_ensures(ConstantExpression::decode, (bytes,), decoded),
    ensures
        encoded is Ok <==> (constant@ matches ConstantValue::Text(text) ==> encode_utf8(text).len() + 17
            <= 0x100_0000),
        encoded matches Ok(artifact) ==> {
            &&& artifact@.len() >= 13
            &&& artifact@.take(8) == seq![79u8, 82u8, 78u8, 65u8, 67u8, 69u8, 0u8, 0u8]
            &&& number_at(artifact@, 8, 12) == 1
            &&& match constant@ {
                ConstantValue::Null => artifact@.len() == 13 && artifact@[12] == 1,
                ConstantValue::Boolean(value) => artifact@.len() == 14 && artifact@[12] == 2 && artifact@[13] == (
                if value {
                    1u8
                } else {
                    0u8
                }),
                ConstantValue::Integer(value) => artifact@.len() == 21 && artifact@[12] == 3 && number_at(
                    artifact@,
                    13,
                    21,
                ) == (if value >= 0 {
                    value as int
                } else {
                    value + 0x1_0000_0000_0000_0000
                }),
                ConstantValue::Text(text) => artifact@[12] == 4 && number_at(artifact@, 13, 17) == encode_utf8(
                    text,
                ).len() && artifact@.skip(17) == encode_utf8(text),
            }
        },
        encoded is Ok && encoded->Ok_0@ == bytes@ ==> decoded is Ok && decoded->Ok_0@ == constant@,
        decoded is Ok && decoded->Ok_0@ == constant@ ==> encoded is Ok && encoded->Ok_0@ == bytes@,
        bytes@.len() > 0x100_0000 ==> decoded is Err,
{
    broadcast use lemma_be_bytes_len;

    law_constant_round_trip(constant@);
    law_constant_canonical(bytes@);
    lemma_radix_powers();
    if encoded is Ok {
        let artifact = constant_bytes(constant@);
        lemma_short_number(1);
        assert(artifact.take(8) =~= seq![79u8, 82u8, 78u8, 65u8, 67u8, 69u8, 0u8, 0u8]);
        assert(artifact.subrange(8, 12) =~= crate::artifact_codec::u32_bytes(1));
        match constant@ {
            ConstantValue::Integer(value) => {
                let bits = crate::artifact_codec::i64_bits(value);
                assert(artifact.subrange(13, 21) =~= crate::artifact_codec::i64_bytes(value));
                lemma_be_value_of_bytes(bits, 8);
            },
            ConstantValue::Text(text) => {
                let length = encode_utf8(text).len() as u32;
                lemma_short_number(length);
                assert(artifact.subrange(13, 17) =~= crate::artifact_codec::u32_bytes(length));
                assert(artifact.skip(17) =~= encode_utf8(text));
            },
            _ => {},
        }
    }
}

} // verus!
